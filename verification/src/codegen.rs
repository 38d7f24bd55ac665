use vstd::prelude::*;
use crate::ast::{Arg, BinaryOp, ClassMember, Expr, FunctionDef, LiteralValue, Module, Param, Pattern, Stmt, TypeExpr, UnaryOp};
use crate::table::{Table, str_equal};

verus! {

/// The C declarations and helper functions that every generated program
/// starts with: the dynamic value type, lists, conversions and printing.
pub const C_PREAMBLE: &'static str = r#"#define _POSIX_C_SOURCE 199309L
#include <stdio.h>
#include <stdlib.h>
#include <stdint.h>
#include <stdbool.h>
#include <string.h>
#include <math.h>
#include <time.h>

typedef struct LucidList LucidList;

typedef enum {
    LUCID_TYPE_NONE = 0,
    LUCID_TYPE_INT,
    LUCID_TYPE_FLOAT,
    LUCID_TYPE_BOOL,
    LUCID_TYPE_STR,
    LUCID_TYPE_LIST,
    LUCID_TYPE_PTR
} LucidValType;

typedef struct {
    int64_t i;
    double f;
    bool b;
    const char* s;
    LucidList* list;
    void* ptr;
    LucidValType type;
} LucidVal;

struct LucidList {
    LucidVal* items;
    int64_t len;
    int64_t cap;
};

static inline const char* lucid_str_index(const char* s, int64_t idx) {
    static char buf[256][2];
    static bool initialized = false;
    if (!initialized) {
        for (int i = 0; i < 256; i++) {
            buf[i][0] = (char)i;
            buf[i][1] = '\0';
        }
        initialized = true;
    }
    if (!s) return "";
    int64_t len = (int64_t)strlen(s);
    if (idx < 0) idx += len;
    if (idx < 0 || idx >= len) return "";
    return buf[(unsigned char)s[idx]];
}

static inline LucidVal lucid_none(void) {
    LucidVal v = {0}; v.type = LUCID_TYPE_NONE; return v;
}
static inline LucidVal lucid_int(int64_t i) {
    LucidVal v = {0}; v.type = LUCID_TYPE_INT; v.i = i; v.f = (double)i; v.b = (i != 0); return v;
}
static inline LucidVal lucid_float(double f) {
    LucidVal v = {0}; v.type = LUCID_TYPE_FLOAT; v.f = f; v.i = (int64_t)f; v.b = (f != 0.0); return v;
}
static inline LucidVal lucid_bool(bool b) {
    LucidVal v = {0}; v.type = LUCID_TYPE_BOOL; v.b = b; v.i = b ? 1 : 0; v.f = b ? 1.0 : 0.0; return v;
}
static inline LucidVal lucid_str(const char* s) {
    LucidVal v = {0}; v.type = LUCID_TYPE_STR; v.s = s; v.ptr = (void*)s; return v;
}
static inline LucidVal lucid_char_str(char* s) {
    return lucid_str((const char*)s);
}
static inline LucidVal lucid_list_val(LucidList* l) {
    LucidVal v = {0}; v.type = LUCID_TYPE_LIST; v.list = l; v.ptr = (void*)l; return v;
}
static inline LucidVal lucid_ptr_val(void* p) {
    LucidVal v = {0}; v.type = LUCID_TYPE_PTR; v.ptr = p; return v;
}
static inline LucidVal _w_val(LucidVal v) { return v; }

#define lucid_wrap(x) _Generic((x), \
    int: lucid_int, \
    long: lucid_int, \
    long long: lucid_int, \
    float: lucid_float, \
    double: lucid_float, \
    bool: lucid_bool, \
    char*: lucid_char_str, \
    const char*: lucid_str, \
    LucidList*: lucid_list_val, \
    LucidVal: _w_val, \
    default: lucid_ptr_val \
)(x)

static inline int64_t lucid_as_int(LucidVal v) {
    if (v.type == LUCID_TYPE_INT) return v.i;
    if (v.type == LUCID_TYPE_FLOAT) return (int64_t)v.f;
    if (v.type == LUCID_TYPE_BOOL) return v.b ? 1 : 0;
    return 0;
}
static inline double lucid_as_float(LucidVal v) {
    if (v.type == LUCID_TYPE_FLOAT) return v.f;
    if (v.type == LUCID_TYPE_INT) return (double)v.i;
    return 0.0;
}
static inline bool lucid_as_bool(LucidVal v) {
    if (v.type == LUCID_TYPE_BOOL) return v.b;
    if (v.type == LUCID_TYPE_INT) return v.i != 0;
    if (v.type == LUCID_TYPE_FLOAT) return v.f != 0.0;
    if (v.type == LUCID_TYPE_STR) return v.s && v.s[0] != '\0';
    if (v.type == LUCID_TYPE_LIST) return v.list && v.list->len > 0;
    return v.type != LUCID_TYPE_NONE;
}
static inline const char* lucid_as_str(LucidVal v) {
    if (v.type == LUCID_TYPE_STR) return v.s ? v.s : "";
    return "";
}
static inline LucidList* lucid_as_list(LucidVal v) {
    if (v.type == LUCID_TYPE_LIST) return v.list;
    return NULL;
}
static inline void* lucid_as_ptr(LucidVal v) {
    return v.ptr;
}

static inline double _n_float(double f) { return f; }
static inline double _n_int(int64_t i) { return (double)i; }
static inline double _n_val(LucidVal v) { return lucid_as_float(v); }
static inline double _n_def(void* p) { (void)p; return 0.0; }

#define lucid_num(x) _Generic((x), \
    float: _n_float, \
    double: _n_float, \
    int: _n_int, \
    long: _n_int, \
    long long: _n_int, \
    LucidVal: _n_val, \
    default: _n_def \
)(x)

static inline int64_t _i_int(int64_t i) { return i; }
static inline int64_t _i_float(double f) { return (int64_t)f; }
static inline int64_t _i_val(LucidVal v) { return lucid_as_int(v); }
static inline int64_t _i_def(void* p) { (void)p; return 0; }

#define lucid_int_val(x) _Generic((x), \
    int: _i_int, \
    long: _i_int, \
    long long: _i_int, \
    float: _i_float, \
    double: _i_float, \
    LucidVal: _i_val, \
    default: _i_def \
)(x)

static inline bool _b_bool(bool b) { return b; }
static inline bool _b_int(int64_t i) { return i != 0; }
static inline bool _b_float(double f) { return f != 0.0; }
static inline bool _b_val(LucidVal v) { return lucid_as_bool(v); }
static inline bool _b_ptr(void* p) { return p != NULL; }

#define lucid_bool_val(x) _Generic((x), \
    bool: _b_bool, \
    int: _b_int, \
    long: _b_int, \
    long long: _b_int, \
    float: _b_float, \
    double: _b_float, \
    LucidVal: _b_val, \
    default: _b_ptr \
)(x)

static inline bool _is_none_val(LucidVal v) { return v.type == LUCID_TYPE_NONE || (v.type == LUCID_TYPE_PTR && v.ptr == NULL); }
static inline bool _is_none_ptr(void* p) { return p == NULL; }

#define lucid_is_none(x) _Generic((x), \
    LucidVal: _is_none_val, \
    default: _is_none_ptr \
)(x)

static inline bool lucid_eq(LucidVal a, LucidVal b) {
    if (a.type == LUCID_TYPE_NONE && b.type == LUCID_TYPE_NONE) return true;
    if (a.type == LUCID_TYPE_STR && b.type == LUCID_TYPE_STR) return strcmp(a.s, b.s) == 0;
    if (a.type == LUCID_TYPE_FLOAT || b.type == LUCID_TYPE_FLOAT) return a.f == b.f;
    if (a.type == LUCID_TYPE_INT || b.type == LUCID_TYPE_INT) return a.i == b.i;
    if (a.type == LUCID_TYPE_BOOL && b.type == LUCID_TYPE_BOOL) return a.b == b.b;
    return a.ptr == b.ptr;
}
static inline bool lucid_lt(LucidVal a, LucidVal b) {
    if (a.type == LUCID_TYPE_FLOAT || b.type == LUCID_TYPE_FLOAT) return a.f < b.f;
    return a.i < b.i;
}
static inline bool lucid_lte(LucidVal a, LucidVal b) {
    if (a.type == LUCID_TYPE_FLOAT || b.type == LUCID_TYPE_FLOAT) return a.f <= b.f;
    return a.i <= b.i;
}
static inline bool lucid_gt(LucidVal a, LucidVal b) {
    if (a.type == LUCID_TYPE_FLOAT || b.type == LUCID_TYPE_FLOAT) return a.f > b.f;
    return a.i > b.i;
}
static inline bool lucid_gte(LucidVal a, LucidVal b) {
    if (a.type == LUCID_TYPE_FLOAT || b.type == LUCID_TYPE_FLOAT) return a.f >= b.f;
    return a.i >= b.i;
}

static inline LucidList* lucid_list_new(int64_t cap) {
    LucidList* l = (LucidList*)malloc(sizeof(LucidList));
    l->len = 0;
    l->cap = cap < 8 ? 8 : cap;
    l->items = (LucidVal*)malloc(sizeof(LucidVal) * l->cap);
    return l;
}

static inline void lucid_list_append(LucidList* l, LucidVal v) {
    if (!l) return;
    if (l->len >= l->cap) {
        l->cap = l->cap < 8 ? 8 : l->cap * 2;
        l->items = (LucidVal*)realloc(l->items, sizeof(LucidVal) * l->cap);
    }
    l->items[l->len++] = v;
}

static inline LucidVal lucid_list_get(LucidList* l, int64_t idx) {
    if (__builtin_expect(!l, 0)) return lucid_none();
    if (__builtin_expect(idx < 0, 0)) idx += l->len;
    if (__builtin_expect(idx < 0 || idx >= l->len, 0)) return lucid_none();
    return l->items[idx];
}

static inline void lucid_list_set(LucidList* l, int64_t idx, LucidVal v) {
    if (__builtin_expect(!l, 0)) return;
    if (__builtin_expect(idx < 0, 0)) idx += l->len;
    if (__builtin_expect(idx < 0, 0)) return;
    if (__builtin_expect(idx >= l->len, 0)) {
        if (idx >= l->cap) {
            l->cap = idx + 8;
            l->items = (LucidVal*)realloc(l->items, sizeof(LucidVal) * l->cap);
        }
        for (int64_t i = l->len; i < idx; i++) {
            l->items[i] = lucid_none();
        }
        l->len = idx + 1;
    }
    l->items[idx] = v;
}

static inline LucidVal lucid_get_index(LucidVal container, int64_t idx) {
    if (container.type == LUCID_TYPE_LIST) {
        return lucid_list_get(container.list, idx);
    }
    if (container.type == LUCID_TYPE_STR) {
        return lucid_str(lucid_str_index(container.s, idx));
    }
    return lucid_none();
}

static inline LucidList* lucid_list_repeat(LucidVal v, int64_t n) {
    if (n < 0) n = 0;
    LucidList* l = (LucidList*)malloc(sizeof(LucidList));
    l->len = n;
    l->cap = n < 8 ? 8 : n;
    l->items = (LucidVal*)malloc(sizeof(LucidVal) * l->cap);
    for (int64_t i = 0; i < n; i++) {
        l->items[i] = v;
    }
    return l;
}

static inline LucidList* lucid_range_to_list(int64_t start, int64_t stop, int64_t step) {
    if (step <= 0) step = 1;
    int64_t count = (stop > start) ? (stop - start + step - 1) / step : 0;
    LucidList* l = lucid_list_new(count);
    for (int64_t i = start; i < stop; i += step) {
        lucid_list_append(l, lucid_int(i));
    }
    return l;
}

static inline LucidList* lucid_list_slice(LucidList* l, int64_t start, int64_t stop, int64_t step) {
    if (!l) return lucid_list_new(0);
    if (start < 0) start += l->len;
    if (stop < 0) stop += l->len;
    if (start < 0) start = 0;
    if (stop > l->len) stop = l->len;
    if (step <= 0) step = 1;
    int64_t count = (stop > start) ? (stop - start + step - 1) / step : 0;
    LucidList* res = lucid_list_new(count);
    for (int64_t i = start; i < stop; i += step) {
        lucid_list_append(res, l->items[i]);
    }
    return res;
}

static inline int64_t _len_list(LucidList* l) { return l ? l->len : 0; }
static inline int64_t _len_str(const char* s) { return s ? (int64_t)strlen(s) : 0; }
static inline int64_t _len_val(LucidVal v) {
    if (v.type == LUCID_TYPE_LIST) return v.list ? v.list->len : 0;
    if (v.type == LUCID_TYPE_STR) return v.s ? (int64_t)strlen(v.s) : 0;
    return 0;
}
static inline int64_t _len_def(void* p) { (void)p; return 0; }

#define lucid_len(x) _Generic((x), \
    LucidList*: _len_list, \
    char*: _len_str, \
    const char*: _len_str, \
    LucidVal: _len_val, \
    default: _len_def \
)(x)

static inline int64_t lucid_list_sum(LucidList* l) {
    if (!l) return 0;
    int64_t s = 0;
    for (int64_t i = 0; i < l->len; i++) {
        s += lucid_as_int(l->items[i]);
    }
    return s;
}

static inline double lucid_round_places(double val, int64_t places) {
    double factor = pow(10.0, (double)places);
    return round(val * factor) / factor;
}

static inline double lucid_time_now(void) {
    struct timespec ts;
    clock_gettime(CLOCK_MONOTONIC, &ts);
    return (double)ts.tv_sec + (double)ts.tv_nsec * 1e-9;
}

static inline void lucid_print_val(LucidVal v) {
    switch (v.type) {
        case LUCID_TYPE_INT: printf("%ld", v.i); break;
        case LUCID_TYPE_FLOAT:
            if (fabs(v.f - round(v.f)) < 1e-12) {
                printf("%ld", (int64_t)round(v.f));
            } else {
                printf("%.10g", v.f);
            }
            break;
        case LUCID_TYPE_BOOL: printf("%s", v.b ? "true" : "false"); break;
        case LUCID_TYPE_STR: printf("%s", v.s ? v.s : ""); break;
        case LUCID_TYPE_NONE: printf("none"); break;
        case LUCID_TYPE_LIST: printf("[list len=%ld]", v.list ? v.list->len : 0); break;
        case LUCID_TYPE_PTR: printf("[obj %p]", v.ptr); break;
    }
}

"#;

/// An error of the code generator.
#[derive(Debug)]
pub struct CodegenError {
    pub message: String,
}

/// The name a `for` loop binds: the pattern's name, or `_`.
pub open spec fn loop_var_text(p: Pattern) -> Seq<char> {
    match p {
        Pattern::Ident(name, _) => name@,
        _ => "_"@,
    }
}

/// The header of a C `for` loop that counts `v` from `start` while below
/// `stop`, by `step`.
pub open spec fn for_range_header(v: Seq<char>, start: Seq<char>, stop: Seq<char>, step: Seq<char>) -> Seq<char> {
    "for (lucid_var_"@ + v + " = "@ + start + "; lucid_var_"@ + v + " < "@ + stop + "; lucid_var_"@ + v + " += "@
        + step + ") {"@
}

/// One line of C text `l` at indentation `level`.
pub open spec fn c_line(level: nat, l: Seq<char>) -> Seq<char> {
    indent_text(level) + l + seq!['\n']
}

/// Whether `part` occurs somewhere in `text`.
pub open spec fn contains_text(text: Seq<char>, part: Seq<char>) -> bool {
    exists|i: int| 0 <= i && i + part.len() <= text.len() && #[trigger] text.subrange(i, i + part.len()) == part
}

/// Temporaries with different numbers have different names. `new_temp`
/// numbers each one past the last, so until the count wraps at the largest
/// `usize` no name is handed out twice.
pub proof fn law_temp_names_distinct(a: nat, b: nat)
    requires
        a != b,
    ensures
        "_lucid_tmp_"@ + crate::text::nat_text(a) != "_lucid_tmp_"@ + crate::text::nat_text(b),
{
    let p = "_lucid_tmp_"@;
    let x = crate::text::nat_text(a);
    let y = crate::text::nat_text(b);
    if p + x == p + y {
        assert((p + x).subrange(p.len() as int, (p + x).len() as int) =~= x);
        assert((p + y).subrange(p.len() as int, (p + y).len() as int) =~= y);
        crate::text::lemma_nat_text_injective(a, b);
    }
}

/// What occurs in a text occurs in every text it begins.
pub proof fn lemma_contains_grow(a: Seq<char>, b: Seq<char>, part: Seq<char>)
    requires
        contains_text(a, part),
        a.is_prefix_of(b),
    ensures
        contains_text(b, part),
{
    let i = choose|i: int| 0 <= i && i + part.len() <= a.len() && #[trigger] a.subrange(i, i + part.len()) == part;
    assert(b.subrange(i, i + part.len()) =~= a.subrange(i, i + part.len()));
}

/// A text that begins with `a` and then `part` contains `part`.
pub proof fn lemma_contains_after(a: Seq<char>, part: Seq<char>, b: Seq<char>)
    requires
        (a + part).is_prefix_of(b),
    ensures
        contains_text(b, part),
{
    let ap = a + part;
    assert(ap =~= b.subrange(0, ap.len() as int));
    assert forall|k: int| 0 <= k < part.len() implies #[trigger] b.subrange(
        a.len() as int,
        a.len() + part.len() as int,
    )[k] == part[k] by {
        assert(b[a.len() + k] == b.subrange(0, ap.len() as int)[a.len() + k]);
        assert(ap[a.len() + k] == part[k]);
    }
    assert(b.subrange(a.len() as int, a.len() + part.len() as int) =~= part);
}

/// `n` levels of indentation, four spaces each.
pub open spec fn indent_text(n: nat) -> Seq<char>
    decreases n,
{
    if n == 0 {
        Seq::empty()
    } else {
        indent_text((n - 1) as nat) + "    "@
    }
}

/// Generates C99 source text from a module.
pub struct CCodeGenerator {
    buffer: String,
    indent: usize,
    temp_var_id: usize,
    in_function: bool,
    current_fn_ret_type: Option<String>,
    known_classes: Table<Vec<String>>,
    known_methods: Table<String>,
    known_fns: Table<String>,
    var_types: Table<String>,
    global_vars: Table<String>,
}

impl CCodeGenerator {
    pub closed spec fn wf(&self) -> bool {
        &&& self.known_classes.wf()
        &&& self.known_methods.wf()
        &&& self.known_fns.wf()
        &&& self.var_types.wf()
        &&& self.global_vars.wf()
    }

    /// The text generated so far.
    pub closed spec fn output(&self) -> Seq<char> {
        self.buffer@
    }

    pub closed spec fn indent_level(&self) -> nat {
        self.indent as nat
    }

    pub closed spec fn temp_count(&self) -> nat {
        self.temp_var_id as nat
    }

    /// Whether the generator knows no class, method, function or variable
    /// and is outside any function.
    pub closed spec fn knows_nothing(&self) -> bool {
        &&& !self.in_function
        &&& self.current_fn_ret_type is None
        &&& self.known_classes.view().is_empty()
        &&& self.known_methods.view().is_empty()
        &&& self.known_fns.view().is_empty()
        &&& self.var_types.view().is_empty()
        &&& self.global_vars.view().is_empty()
    }

    /// A generator with nothing generated and nothing known.
    pub fn new() -> (g: Self)
        ensures
            g.wf(),
            g.output() == Seq::<char>::empty(),
            g.indent_level() == 0,
            g.temp_count() == 0,
            g.knows_nothing(),
    {
        CCodeGenerator {
            buffer: String::new(),
            indent: 0,
            temp_var_id: 0,
            in_function: false,
            current_fn_ret_type: None,
            known_classes: Table::new(),
            known_methods: Table::new(),
            known_fns: Table::new(),
            var_types: Table::new(),
            global_vars: Table::new(),
        }
    }

    /// A fresh name for a temporary C variable: "_lucid_tmp_" followed by
    /// the next number (the count wraps around after the largest `usize`).
    pub fn new_temp(&mut self) -> (s: String)
        ensures
            final(self).temp_count() == (if old(self).temp_count() < usize::MAX {
                old(self).temp_count() + 1
            } else {
                0
            }),
            s@ == "_lucid_tmp_"@ + crate::text::nat_text(final(self).temp_count()),
            final(self).output() == old(self).output(),
            final(self).indent_level() == old(self).indent_level(),
            final(self).wf() == old(self).wf(),
            final(self).same_knowledge(*old(self)),
    {
        self.temp_var_id = self.temp_var_id.wrapping_add(1);
        let mut s = String::from_str("_lucid_tmp_");
        let n = crate::text::usize_to_string(self.temp_var_id);
        s.append(n.as_str());
        s
    }

    /// Whether two generators know the same classes, methods, functions and
    /// variables, and are inside the same function.
    pub closed spec fn same_knowledge(&self, other: Self) -> bool {
        &&& self.in_function == other.in_function
        &&& self.current_fn_ret_type == other.current_fn_ret_type
        &&& self.known_classes == other.known_classes
        &&& self.known_methods == other.known_methods
        &&& self.known_fns == other.known_fns
        &&& self.var_types == other.var_types
        &&& self.global_vars == other.global_vars
    }

    /// The indentation of the current level.
    pub fn indent_str(&self) -> (s: String)
        ensures
            s@ == indent_text(self.indent_level()),
    {
        let mut s = String::new();
        let mut i: usize = 0;
        while i < self.indent
            invariant
                i <= self.indent,
                s@ == indent_text(i as nat),
            decreases self.indent - i,
        {
            s.append("    ");
            i = i + 1;
        }
        s
    }

    /// Appends `s` as one line at the current indentation.
    pub fn emit_line(&mut self, s: &str)
        ensures
            final(self).output() == old(self).output() + indent_text(old(self).indent_level()) + s@ + seq!['\n'],
            final(self).indent_level() == old(self).indent_level(),
            final(self).temp_count() == old(self).temp_count(),
            final(self).wf() == old(self).wf(),
            final(self).same_knowledge(*old(self)),
    {
        let ind = self.indent_str();
        self.buffer.append(ind.as_str());
        self.buffer.append(s);
        self.buffer.push('\n');
    }

    /// Appends the C preamble.
    pub fn emit_preamble(&mut self)
        ensures
            final(self).output() == old(self).output() + C_PREAMBLE@,
            final(self).indent_level() == old(self).indent_level(),
            final(self).temp_count() == old(self).temp_count(),
            final(self).wf() == old(self).wf(),
            final(self).same_knowledge(*old(self)),
    {
        self.buffer.append(C_PREAMBLE);
    }
}

/// Texts with ", " between each two.
pub open spec fn join_comma(ss: Seq<Seq<char>>) -> Seq<char>
    decreases ss.len(),
{
    if ss.len() == 0 {
        Seq::empty()
    } else if ss.len() == 1 {
        ss[0]
    } else {
        join_comma(ss.drop_last()) + ", "@ + ss.last()
    }
}

/// The C type for a type named `n`.
pub open spec fn named_c_type(n: Seq<char>) -> Seq<char> {
    if n == "int"@ {
        "int64_t"@
    } else if n == "float"@ {
        "double"@
    } else if n == "bool"@ {
        "bool"@
    } else if n == "str"@ {
        "const char*"@
    } else if n == "none"@ || n == "None"@ {
        "void"@
    } else if n == "list"@ {
        "LucidList*"@
    } else {
        n + "*"@
    }
}

/// The C type for a union: a pointer to the first named member that is not
/// `none`, else the dynamic value type.
pub open spec fn union_c_type(types: Seq<TypeExpr>) -> Seq<char>
    decreases types.len(),
{
    if types.len() == 0 {
        "LucidVal"@
    } else {
        match types[0] {
            TypeExpr::Named { name, .. } => if name@ != "none"@ && name@ != "None"@ {
                name@ + "*"@
            } else {
                union_c_type(types.drop_first())
            },
            _ => union_c_type(types.drop_first()),
        }
    }
}

/// The C type for an optional type annotation.
pub open spec fn c_type(te: Option<TypeExpr>) -> Seq<char> {
    match te {
        Some(TypeExpr::Named { name, .. }) => named_c_type(name@),
        Some(TypeExpr::Union { types, .. }) => union_c_type(types@),
        _ => "LucidVal"@,
    }
}

/// A parameter as a C parameter declaration.
pub open spec fn param_decl(p: Param) -> Seq<char> {
    c_type(p.type_annotation) + " lucid_var_"@ + p.name@
}

/// A C parameter list: `void` when there are no parameters.
pub open spec fn param_list_text(ps: Seq<Param>) -> Seq<char> {
    if ps.len() == 0 {
        "void"@
    } else {
        join_comma(ps.map_values(|p: Param| param_decl(p)))
    }
}

/// Whether an expression is `none` (the literal or the name, in either case).
pub open spec fn is_none_spec(e: Expr) -> bool {
    match e {
        Expr::Literal { value: LiteralValue::NoneLit, .. } => true,
        Expr::Ident { name, .. } => name@ == "none"@ || name@ == "None"@,
        _ => false,
    }
}

pub fn is_none_expr(expr: &Expr) -> (r: bool)
    ensures
        r == is_none_spec(*expr),
{
    match expr {
        Expr::Literal { value: LiteralValue::NoneLit, .. } => true,
        Expr::Ident { name, .. } => str_equal(name.as_str(), "none") || str_equal(name.as_str(), "None"),
        _ => false,
    }
}

/// Texts by name.
pub open spec fn texts_of(m: Map<Seq<char>, String>) -> Map<Seq<char>, Seq<char>> {
    m.map_values(|s: String| s@)
}

fn union_type_text(types: &Vec<TypeExpr>) -> (r: String)
    ensures
        r@ == union_c_type(types@),
{
    let mut i: usize = 0;
    proof {
        assert(types@.skip(0) =~= types@);
    }
    while i < types.len()
        invariant
            i <= types@.len(),
            union_c_type(types@.skip(i as int)) == union_c_type(types@),
        decreases types.len() - i,
    {
        proof {
            assert(types@.skip(i as int)[0] == types@[i as int]);
            assert(types@.skip(i as int).drop_first() =~= types@.skip(i + 1));
        }
        match &types[i] {
            TypeExpr::Named { name, .. } => {
                if !str_equal(name.as_str(), "none") && !str_equal(name.as_str(), "None") {
                    let mut r = name.clone();
                    r.append("*");
                    return r;
                }
            },
            _ => {},
        }
        i = i + 1;
    }
    proof {
        assert(types@.skip(i as int).len() == 0);
    }
    String::from_str("LucidVal")
}

fn named_type_text(n: &String) -> (r: String)
    ensures
        r@ == named_c_type(n@),
{
    if str_equal(n.as_str(), "int") {
        String::from_str("int64_t")
    } else if str_equal(n.as_str(), "float") {
        String::from_str("double")
    } else if str_equal(n.as_str(), "bool") {
        String::from_str("bool")
    } else if str_equal(n.as_str(), "str") {
        String::from_str("const char*")
    } else if str_equal(n.as_str(), "none") || str_equal(n.as_str(), "None") {
        String::from_str("void")
    } else if str_equal(n.as_str(), "list") {
        String::from_str("LucidList*")
    } else {
        let mut r = n.clone();
        r.append("*");
        r
    }
}

impl CCodeGenerator {
    /// The C type for an optional type annotation (see `c_type`).
    pub fn map_type_expr(&self, te: Option<&TypeExpr>) -> (r: String)
        ensures
            r@ == c_type(
                match te {
                    Some(t) => Some(*t),
                    None => None,
                },
            ),
    {
        match te {
            Some(TypeExpr::Named { name, .. }) => named_type_text(name),
            Some(TypeExpr::Union { types, .. }) => union_type_text(types),
            _ => String::from_str("LucidVal"),
        }
    }

    /// A C parameter list for the parameters (see `param_list_text`).
    pub fn emit_param_list(&self, params: &Vec<Param>) -> (r: String)
        ensures
            r@ == param_list_text(params@),
    {
        if params.len() == 0 {
            return String::from_str("void");
        }
        let ghost decls = params@.map_values(|p: Param| param_decl(p));
        let mut r = String::new();
        let mut i: usize = 0;
        while i < params.len()
            invariant
                i <= params@.len(),
                params@.len() > 0,
                decls == params@.map_values(|p: Param| param_decl(p)),
                r@ == join_comma(decls.take(i as int)),
            decreases params.len() - i,
        {
            let ghost before = r@;
            if i > 0 {
                r.append(", ");
            }
            let ty = self.map_type_expr(params[i].type_annotation.as_ref());
            r.append(ty.as_str());
            r.append(" lucid_var_");
            r.append(params[i].name.as_str());
            proof {
                assert(decls.take(i + 1).drop_last() =~= decls.take(i as int));
                assert(decls.take(i + 1).last() == param_decl(params@[i as int]));
                if i == 0 {
                    assert(decls.take(1) =~= seq![param_decl(params@[0])]);
                    assert(r@ =~= param_decl(params@[0]));
                } else {
                    assert(r@ =~= before + ", "@ + param_decl(params@[i as int]));
                }
            }
            i = i + 1;
        }
        proof {
            assert(decls.take(params@.len() as int) =~= decls);
        }
        r
    }

    /// The C type that a generated expression has, as far as it can be told
    /// from the expression: literals, lists, calls of known classes,
    /// functions and built-ins, arithmetic, and variables looked up in
    /// `vars`, then in the function's variables, then in the globals.
    pub closed spec fn infer_type(&self, vars: Map<Seq<char>, Seq<char>>, e: Expr) -> Seq<char>
        decreases e,
    {
        match e {
            Expr::Literal { value, .. } => match value {
                LiteralValue::Int(_) => "int64_t"@,
                LiteralValue::Float(_) => "double"@,
                LiteralValue::Bool(_) => "bool"@,
                LiteralValue::Str(_) => "const char*"@,
                _ => "LucidVal"@,
            },
            Expr::List { .. } => "LucidList*"@,
            Expr::ListComp { .. } => "LucidList*"@,
            Expr::Call { func, .. } => match *func {
                Expr::Ident { name, .. } => {
                    let n = name@;
                    if self.known_classes.view().contains_key(n) {
                        n + "*"@
                    } else if self.known_fns.view().contains_key(n) {
                        self.known_fns.view()[n]@
                    } else if n == "len"@ || n == "sum"@ || n == "int"@ {
                        "int64_t"@
                    } else if n == "abs"@ || n == "round"@ {
                        "double"@
                    } else if n == "list"@ {
                        "LucidList*"@
                    } else {
                        "LucidVal"@
                    }
                },
                Expr::Attribute { value: obj, attr, .. } => {
                    if (match *obj {
                        Expr::Ident { name, .. } => name@ == "time"@,
                        _ => false,
                    }) && attr@ == "time"@ {
                        "double"@
                    } else if attr@ == "next"@ {
                        "double"@
                    } else {
                        "LucidVal"@
                    }
                },
                _ => "LucidVal"@,
            },
            Expr::Index { .. } => "LucidVal"@,
            Expr::Binary { op, left, right, .. } => {
                if op == BinaryOp::Mul && (*left is List) {
                    "LucidList*"@
                } else {
                    let l = self.infer_type(vars, *left);
                    let r = self.infer_type(vars, *right);
                    match op {
                        BinaryOp::Eq | BinaryOp::NotEq | BinaryOp::Lt | BinaryOp::LtEq | BinaryOp::Gt
                        | BinaryOp::GtEq | BinaryOp::Is | BinaryOp::IsNot => "bool"@,
                        BinaryOp::Div | BinaryOp::Pow => "double"@,
                        BinaryOp::Mod | BinaryOp::FloorDiv | BinaryOp::BitAnd | BinaryOp::BitOr
                        | BinaryOp::BitXor | BinaryOp::Shl | BinaryOp::Shr => "int64_t"@,
                        BinaryOp::Add | BinaryOp::Sub | BinaryOp::Mul => {
                            if l == "double"@ || r == "double"@ {
                                "double"@
                            } else if l == "int64_t"@ && r == "int64_t"@ {
                                "int64_t"@
                            } else {
                                "double"@
                            }
                        },
                        _ => "LucidVal"@,
                    }
                }
            },
            Expr::Unary { op, expr, .. } => match op {
                UnaryOp::Not => "bool"@,
                _ => self.infer_type(vars, *expr),
            },
            Expr::Ident { name, .. } => {
                if vars.contains_key(name@) {
                    vars[name@]
                } else if self.var_types.view().contains_key(name@) {
                    self.var_types.view()[name@]@
                } else if self.global_vars.view().contains_key(name@) {
                    self.global_vars.view()[name@]@
                } else {
                    "LucidVal"@
                }
            },
            _ => "LucidVal"@,
        }
    }

    /// The C type of an expression (see `infer_type`).
    pub fn infer_expr_type(&self, expr: &Expr, vars: &Table<String>) -> (r: String)
        requires
            self.wf(),
            vars.wf(),
        ensures
            r@ == self.infer_type(texts_of(vars.view()), *expr),
        decreases expr,
    {
        match expr {
            Expr::Literal { value, .. } => match value {
                LiteralValue::Int(_) => String::from_str("int64_t"),
                LiteralValue::Float(_) => String::from_str("double"),
                LiteralValue::Bool(_) => String::from_str("bool"),
                LiteralValue::Str(_) => String::from_str("const char*"),
                _ => String::from_str("LucidVal"),
            },
            Expr::List { .. } => String::from_str("LucidList*"),
            Expr::ListComp { .. } => String::from_str("LucidList*"),
            Expr::Call { func, .. } => match &**func {
                Expr::Ident { name, .. } => {
                    let n = name.as_str();
                    if self.known_classes.contains_key(n) {
                        let mut r = name.clone();
                        r.append("*");
                        r
                    } else if let Some(ret) = self.known_fns.get(n) {
                        ret.clone()
                    } else if str_equal(n, "len") || str_equal(n, "sum") || str_equal(n, "int") {
                        String::from_str("int64_t")
                    } else if str_equal(n, "abs") || str_equal(n, "round") {
                        String::from_str("double")
                    } else if str_equal(n, "list") {
                        String::from_str("LucidList*")
                    } else {
                        String::from_str("LucidVal")
                    }
                },
                Expr::Attribute { value: obj, attr, .. } => {
                    let is_time = match &**obj {
                        Expr::Ident { name, .. } => str_equal(name.as_str(), "time"),
                        _ => false,
                    };
                    if is_time && str_equal(attr.as_str(), "time") {
                        String::from_str("double")
                    } else if str_equal(attr.as_str(), "next") {
                        String::from_str("double")
                    } else {
                        String::from_str("LucidVal")
                    }
                },
                _ => String::from_str("LucidVal"),
            },
            Expr::Index { .. } => String::from_str("LucidVal"),
            Expr::Binary { op, left, right, .. } => {
                if matches!(op, BinaryOp::Mul) && matches!(**left, Expr::List { .. }) {
                    return String::from_str("LucidList*");
                }
                let l = self.infer_expr_type(left, vars);
                let r = self.infer_expr_type(right, vars);
                match op {
                    BinaryOp::Eq | BinaryOp::NotEq | BinaryOp::Lt | BinaryOp::LtEq | BinaryOp::Gt | BinaryOp::GtEq
                    | BinaryOp::Is | BinaryOp::IsNot => String::from_str("bool"),
                    BinaryOp::Div | BinaryOp::Pow => String::from_str("double"),
                    BinaryOp::Mod | BinaryOp::FloorDiv | BinaryOp::BitAnd | BinaryOp::BitOr | BinaryOp::BitXor
                    | BinaryOp::Shl | BinaryOp::Shr => String::from_str("int64_t"),
                    BinaryOp::Add | BinaryOp::Sub | BinaryOp::Mul => {
                        if str_equal(l.as_str(), "double") || str_equal(r.as_str(), "double") {
                            String::from_str("double")
                        } else if str_equal(l.as_str(), "int64_t") && str_equal(r.as_str(), "int64_t") {
                            String::from_str("int64_t")
                        } else {
                            String::from_str("double")
                        }
                    },
                    _ => String::from_str("LucidVal"),
                }
            },
            Expr::Unary { op, expr: inner, .. } => match op {
                UnaryOp::Not => String::from_str("bool"),
                _ => self.infer_expr_type(inner, vars),
            },
            Expr::Ident { name, .. } => {
                let n = name.as_str();
                if let Some(t) = vars.get(n) {
                    t.clone()
                } else if let Some(t) = self.var_types.get(n) {
                    t.clone()
                } else if let Some(t) = self.global_vars.get(n) {
                    t.clone()
                } else {
                    String::from_str("LucidVal")
                }
            },
            _ => String::from_str("LucidVal"),
        }
    }

    /// The type text of a variable in the function or among the globals.
    pub closed spec fn known_var_type(&self, n: Seq<char>) -> Option<Seq<char>> {
        if self.var_types.view().contains_key(n) {
            Some(self.var_types.view()[n]@)
        } else if self.global_vars.view().contains_key(n) {
            Some(self.global_vars.view()[n]@)
        } else {
            None
        }
    }

    /// Whether the C code for an expression gives a dynamic value: an index,
    /// a variable of dynamic type, or a call of a function that returns one.
    pub closed spec fn is_val_spec(&self, e: Expr) -> bool {
        match e {
            Expr::Index { .. } => true,
            Expr::Ident { name, .. } => self.known_var_type(name@) == Some("LucidVal"@),
            Expr::Call { func, .. } => match *func {
                Expr::Ident { name, .. } => self.known_fns.view().contains_key(name@) && self.known_fns.view()[name@]@
                    == "LucidVal"@,
                _ => false,
            },
            _ => false,
        }
    }

    fn known_var_type_text(&self, n: &str) -> (r: Option<&String>)
        requires
            self.wf(),
        ensures
            match r {
                Some(s) => self.known_var_type(n@) == Some(s@),
                None => self.known_var_type(n@) is None,
            },
    {
        match self.var_types.get(n) {
            Some(t) => Some(t),
            None => self.global_vars.get(n),
        }
    }

    /// Whether the C code for an expression gives a dynamic value (see
    /// `is_val_spec`).
    pub fn expr_is_val(&self, expr: &Expr) -> (r: bool)
        requires
            self.wf(),
        ensures
            r == self.is_val_spec(*expr),
    {
        match expr {
            Expr::Index { .. } => true,
            Expr::Ident { name, .. } => match self.known_var_type_text(name.as_str()) {
                Some(t) => str_equal(t.as_str(), "LucidVal"),
                None => false,
            },
            Expr::Call { func, .. } => match &**func {
                Expr::Ident { name, .. } => match self.known_fns.get(name.as_str()) {
                    Some(t) => str_equal(t.as_str(), "LucidVal"),
                    None => false,
                },
                _ => false,
            },
            _ => false,
        }
    }
}

/// The type text of the loop variable of a `for` over `iterable`: integers
/// for `range(...)`, else the dynamic value type.
pub open spec fn loop_var_type(iterable: Expr) -> Seq<char> {
    match iterable {
        Expr::Call { func, .. } => match *func {
            Expr::Ident { name, .. } => if name@ == "range"@ {
                "int64_t"@
            } else {
                "LucidVal"@
            },
            _ => "LucidVal"@,
        },
        _ => "LucidVal"@,
    }
}

pub open spec fn loop_var_name(target: Pattern) -> Seq<char> {
    match target {
        Pattern::Ident(n, _) => n@,
        _ => "_"@,
    }
}

impl CCodeGenerator {
    /// The variables that a statement introduces, with their C types, added
    /// to `vars`: a defined name (its annotation, else the type of its
    /// value), a name first assigned, a loop variable, and those of nested
    /// blocks of `for`, `if` and `while`.
    pub closed spec fn collect_vars(&self, vars: Map<Seq<char>, Seq<char>>, s: Stmt) -> Map<Seq<char>, Seq<char>>
        decreases s,
    {
        match s {
            Stmt::VarDef { pattern, type_annotation, value, .. } => match pattern {
                Pattern::Ident(name, _) => {
                    let ty = match type_annotation {
                        Some(ta) => c_type(Some(ta)),
                        None => match value {
                            Some(v) => self.infer_type(vars, v),
                            None => "LucidVal"@,
                        },
                    };
                    vars.insert(name@, ty)
                },
                _ => vars,
            },
            Stmt::Assignment { target, value, .. } => match target {
                Expr::Ident { name, .. } => if !vars.contains_key(name@) {
                    vars.insert(name@, self.infer_type(vars, value))
                } else {
                    vars
                },
                _ => vars,
            },
            Stmt::For { target, iterable, body, .. } => self.collect_vars_block(
                vars.insert(loop_var_name(target), loop_var_type(iterable)),
                body@,
            ),
            Stmt::If { then_branch, elif_branches, else_branch, .. } => {
                let v1 = self.collect_vars_block(vars, then_branch@);
                let v2 = self.collect_vars_elifs(v1, elif_branches@);
                match else_branch {
                    Some(b) => self.collect_vars_block(v2, b@),
                    None => v2,
                }
            },
            Stmt::While { body, .. } => self.collect_vars_block(vars, body@),
            _ => vars,
        }
    }

    pub closed spec fn collect_vars_block(&self, vars: Map<Seq<char>, Seq<char>>, ss: Seq<Stmt>) -> Map<
        Seq<char>,
        Seq<char>,
    >
        decreases ss,
    {
        if ss.len() == 0 {
            vars
        } else {
            self.collect_vars(self.collect_vars_block(vars, ss.drop_last()), ss.last())
        }
    }

    pub closed spec fn collect_vars_elifs(&self, vars: Map<Seq<char>, Seq<char>>, elifs: Seq<(Expr, Vec<Stmt>)>) -> Map<
        Seq<char>,
        Seq<char>,
    >
        decreases elifs,
    {
        if elifs.len() == 0 {
            vars
        } else {
            self.collect_vars_block(self.collect_vars_elifs(vars, elifs.drop_last()), elifs.last().1@)
        }
    }

    /// Adds the variables that a statement introduces to `vars` (see
    /// `collect_vars`).
    #[verifier::loop_isolation(false)]
    pub fn collect_vars_from_stmt(&self, stmt: &Stmt, vars: &mut Table<String>)
        requires
            self.wf(),
            old(vars).wf(),
        ensures
            final(vars).wf(),
            texts_of(final(vars).view()) == self.collect_vars(texts_of(old(vars).view()), *stmt),
        decreases stmt,
    {
        match stmt {
            Stmt::VarDef { pattern, type_annotation, value, .. } => match pattern {
                Pattern::Ident(name, _) => {
                    let ty = match type_annotation {
                        Some(ta) => self.map_type_expr(Some(ta)),
                        None => match value {
                            Some(v) => self.infer_expr_type(v, vars),
                            None => String::from_str("LucidVal"),
                        },
                    };
                    let ghost before = vars.view();
                    vars.insert(name.clone(), ty);
                    proof {
                        assert(texts_of(vars.view()) =~= texts_of(before).insert(name@, ty@));
                    }
                },
                _ => {},
            },
            Stmt::Assignment { target, value, .. } => match target {
                Expr::Ident { name, .. } => {
                    if !vars.contains_key(name.as_str()) {
                        let ty = self.infer_expr_type(value, vars);
                        let ghost before = vars.view();
                        vars.insert(name.clone(), ty);
                        proof {
                            assert(texts_of(vars.view()) =~= texts_of(before).insert(name@, ty@));
                        }
                    }
                },
                _ => {},
            },
            Stmt::For { target, iterable, body, .. } => {
                let name = match target {
                    Pattern::Ident(n, _) => n.clone(),
                    _ => String::from_str("_"),
                };
                let ty = match iterable {
                    Expr::Call { func, .. } => match &**func {
                        Expr::Ident { name: fname, .. } => if str_equal(fname.as_str(), "range") {
                            String::from_str("int64_t")
                        } else {
                            String::from_str("LucidVal")
                        },
                        _ => String::from_str("LucidVal"),
                    },
                    _ => String::from_str("LucidVal"),
                };
                let ghost before = vars.view();
                vars.insert(name, ty);
                proof {
                    assert(texts_of(vars.view()) =~= texts_of(before).insert(
                        loop_var_name(*target),
                        loop_var_type(*iterable),
                    ));
                }
                self.collect_vars_from_block(body, vars);
            },
            Stmt::If { then_branch, elif_branches, else_branch, .. } => {
                self.collect_vars_from_block(then_branch, vars);
                let ghost v1 = texts_of(vars.view());
                let mut i: usize = 0;
                proof {
                    assert(elif_branches@.take(0) =~= Seq::<(Expr, Vec<Stmt>)>::empty());
                }
                while i < elif_branches.len()
                    invariant
                        self.wf(),
                        vars.wf(),
                        i <= elif_branches@.len(),
                        texts_of(vars.view()) == self.collect_vars_elifs(v1, elif_branches@.take(i as int)),
                    decreases elif_branches.len() - i,
                {
                    proof {
                        assert(decreases_to!(stmt => elif_branches));
                        assert(decreases_to!(elif_branches => elif_branches[i as int]));
                        assert(decreases_to!(elif_branches[i as int] => elif_branches[i as int].1));
                        assert(elif_branches@.take(i + 1).drop_last() =~= elif_branches@.take(i as int));
                        assert(elif_branches@.take(i + 1).last() == elif_branches@[i as int]);
                    }
                    self.collect_vars_from_block(&elif_branches[i].1, vars);
                    i = i + 1;
                }
                proof {
                    assert(elif_branches@.take(elif_branches@.len() as int) =~= elif_branches@);
                }
                match else_branch {
                    Some(b) => self.collect_vars_from_block(b, vars),
                    None => {},
                }
            },
            Stmt::While { body, .. } => {
                self.collect_vars_from_block(body, vars);
            },
            _ => {},
        }
    }

    fn collect_vars_from_block(&self, ss: &Vec<Stmt>, vars: &mut Table<String>)
        requires
            self.wf(),
            old(vars).wf(),
        ensures
            final(vars).wf(),
            texts_of(final(vars).view()) == self.collect_vars_block(texts_of(old(vars).view()), ss@),
        decreases ss,
    {
        let ghost v0 = texts_of(vars.view());
        let mut i: usize = 0;
        proof {
            assert(ss@.take(0) =~= Seq::<Stmt>::empty());
        }
        while i < ss.len()
            invariant
                self.wf(),
                vars.wf(),
                i <= ss@.len(),
                texts_of(vars.view()) == self.collect_vars_block(v0, ss@.take(i as int)),
            decreases ss.len() - i,
        {
            proof {
                assert(decreases_to!(ss => ss[i as int]));
                assert(ss@.take(i + 1).drop_last() =~= ss@.take(i as int));
                assert(ss@.take(i + 1).last() == ss@[i as int]);
            }
            self.collect_vars_from_stmt(&ss[i], vars);
            i = i + 1;
        }
        proof {
            assert(ss@.take(ss@.len() as int) =~= ss@);
        }
    }
}

/// Whether every call of a method named `append` that code is generated for
/// has an argument (code generation reads the first argument of such a call).
pub open spec fn appends_ok(e: Expr) -> bool
    decreases e,
{
    match e {
        Expr::Binary { left, right, .. } => appends_ok(*left) && appends_ok(*right),
        Expr::Unary { expr, .. } => appends_ok(*expr),
        Expr::Call { func, args, .. } => appends_ok(*func) && args_ok(args@) && match *func {
            Expr::Attribute { attr, .. } => attr@ == "append"@ ==> args.len() > 0,
            _ => true,
        },
        Expr::Index { value, index, .. } => appends_ok(*value) && appends_ok(*index),
        Expr::Slice { start, stop, step, .. } => (match start {
            Some(b) => appends_ok(*b),
            None => true,
        }) && (match stop {
            Some(b) => appends_ok(*b),
            None => true,
        }) && (match step {
            Some(b) => appends_ok(*b),
            None => true,
        }),
        Expr::Attribute { value, .. } => appends_ok(*value),
        Expr::List { elements, .. } => exprs_ok(elements@),
        Expr::ListComp { element, iter, condition, .. } => appends_ok(*element) && appends_ok(*iter) && match condition {
            Some(c) => appends_ok(*c),
            None => true,
        },
        Expr::IfExpr { condition, then_branch, else_branch, .. } => appends_ok(*condition) && appends_ok(*then_branch)
            && appends_ok(*else_branch),
        _ => true,
    }
}

pub open spec fn args_ok(args: Seq<Arg>) -> bool
    decreases args,
{
    if args.len() == 0 {
        true
    } else {
        args_ok(args.drop_last()) && appends_ok(args.last().value)
    }
}

pub open spec fn exprs_ok(es: Seq<Expr>) -> bool
    decreases es,
{
    if es.len() == 0 {
        true
    } else {
        exprs_ok(es.drop_last()) && appends_ok(es.last())
    }
}

pub proof fn lemma_args_ok(args: Seq<Arg>, i: int)
    requires
        args_ok(args),
        0 <= i < args.len(),
    ensures
        appends_ok(args[i].value),
    decreases args.len(),
{
    if i < args.len() - 1 {
        assert(args.drop_last()[i] == args[i]);
        lemma_args_ok(args.drop_last(), i);
    }
}

pub proof fn lemma_exprs_ok(es: Seq<Expr>, i: int)
    requires
        exprs_ok(es),
        0 <= i < es.len(),
    ensures
        appends_ok(es[i]),
    decreases es.len(),
{
    if i < es.len() - 1 {
        assert(es.drop_last()[i] == es[i]);
        lemma_exprs_ok(es.drop_last(), i);
    }
}

/// `s` with each double quote preceded by a backslash.
pub open spec fn escape_quotes(s: Seq<char>) -> Seq<char>
    decreases s.len(),
{
    if s.len() == 0 {
        Seq::empty()
    } else if s.last() == '"' {
        escape_quotes(s.drop_last()) + seq!['\\', '"']
    } else {
        escape_quotes(s.drop_last()).push(s.last())
    }
}

/// The C text of a floating-point literal: its digits, with ".0" added
/// when they have neither a point nor an exponent.
pub open spec fn float_code(digits: Seq<char>) -> Seq<char> {
    if digits.contains('.') || digits.contains('e') || digits.contains('E') {
        digits
    } else {
        digits + ".0"@
    }
}

/// The C text of a literal or a name, which depends on nothing else.
pub open spec fn simple_expr_code(e: Expr) -> Option<Seq<char>> {
    match e {
        Expr::Literal { value, .. } => Some(
            match value {
                LiteralValue::Int(n) => crate::text::int_text(n as int) + "LL"@,
                LiteralValue::Float(f) => float_code(f@),
                LiteralValue::Str(t) => "\""@ + escape_quotes(t@) + "\""@,
                LiteralValue::Bool(b) => if b {
                    "true"@
                } else {
                    "false"@
                },
                _ => "lucid_none()"@,
            },
        ),
        Expr::Ident { name, .. } => Some(
            if name@ == "true"@ {
                "true"@
            } else if name@ == "false"@ {
                "false"@
            } else if name@ == "none"@ || name@ == "None"@ {
                "lucid_none()"@
            } else if name@ == "self"@ {
                "self"@
            } else {
                "lucid_var_"@ + name@
            },
        ),
        _ => None,
    }
}

/// The C operator of an augmented assignment: `+`, `-`, `*` or `/`, and
/// `+` for any other operation.
pub open spec fn aug_op_text(op: BinaryOp) -> Seq<char> {
    match op {
        BinaryOp::Sub => "-"@,
        BinaryOp::Mul => "*"@,
        BinaryOp::Div => "/"@,
        _ => "+"@,
    }
}

/// The C prefix and suffix that a builtin of one argument wraps around it:
/// `len`, `abs`, `round` (of one argument), `int`, `float` and `sum`.
pub open spec fn builtin_wrap(n: Seq<char>, nargs: nat) -> Option<(Seq<char>, Seq<char>)> {
    if n == "len"@ {
        Some(("lucid_len(lucid_wrap("@, "))"@))
    } else if n == "abs"@ {
        Some(("fabs(lucid_as_float(lucid_wrap("@, ")))"@))
    } else if n == "round"@ && nargs == 1 {
        Some(("round(lucid_as_float(lucid_wrap("@, ")))"@))
    } else if n == "int"@ {
        Some(("lucid_as_int(lucid_wrap("@, "))"@))
    } else if n == "float"@ {
        Some(("lucid_as_float(lucid_wrap("@, "))"@))
    } else if n == "sum"@ {
        Some(("lucid_list_sum(lucid_as_list(lucid_wrap("@, ")))"@))
    } else {
        None
    }
}

/// The names of the builtins are different texts.
pub proof fn lemma_builtin_names_distinct()
    ensures
        "print"@ != "len"@ && "print"@ != "abs"@ && "print"@ != "round"@ && "print"@ != "int"@ && "print"@ != "float"@
            && "print"@ != "sum"@ && "print"@ != "list"@,
        "len"@ != "abs"@ && "len"@ != "round"@ && "len"@ != "int"@ && "len"@ != "float"@ && "len"@ != "sum"@
            && "len"@ != "list"@,
        "abs"@ != "round"@ && "abs"@ != "int"@ && "abs"@ != "float"@ && "abs"@ != "sum"@ && "abs"@ != "list"@,
        "round"@ != "int"@ && "round"@ != "float"@ && "round"@ != "sum"@ && "round"@ != "list"@,
        "int"@ != "float"@ && "int"@ != "sum"@ && "int"@ != "list"@,
        "float"@ != "sum"@ && "float"@ != "list"@,
        "sum"@ != "list"@,
{
    reveal_strlit("print");
    reveal_strlit("len");
    reveal_strlit("abs");
    reveal_strlit("round");
    reveal_strlit("int");
    reveal_strlit("float");
    reveal_strlit("sum");
    reveal_strlit("list");
    assert("print"@[0] == 'p' && "len"@[0] == 'l' && "abs"@[0] == 'a' && "round"@[0] == 'r' && "int"@[0] == 'i'
        && "float"@[0] == 'f' && "sum"@[0] == 's' && "list"@[0] == 'l' && "len"@[1] == 'e' && "list"@[1] == 'i');
}

/// Whether a name is a builtin that a call handles itself.
pub open spec fn is_builtin_call_name(n: Seq<char>) -> bool {
    n == "print"@ || n == "len"@ || n == "abs"@ || n == "round"@ || n == "int"@ || n == "float"@ || n == "sum"@
        || n == "list"@
}

/// The statements that print values with C texts `cs`, a space between
/// each two.
pub open spec fn print_items(cs: Seq<Seq<char>>) -> Seq<char>
    decreases cs.len(),
{
    if cs.len() == 0 {
        Seq::empty()
    } else {
        print_items(cs.drop_last()) + (if cs.len() > 1 {
            "printf(\" \"); "@
        } else {
            Seq::<char>::empty()
        }) + "lucid_print_val(lucid_wrap("@ + cs.last() + ")); "@
    }
}

/// The C text of a unary operation on an operand with C text `c`.
pub open spec fn unary_code(op: UnaryOp, c: Seq<char>) -> Seq<char> {
    match op {
        UnaryOp::Pos => "(+"@ + c + ")"@,
        UnaryOp::Neg => "(-"@ + c + ")"@,
        UnaryOp::Not => "(!lucid_bool_val("@ + c + "))"@,
        UnaryOp::Invert => "(~(int64_t)"@ + c + ")"@,
        _ => c,
    }
}

/// Whether an expression is a string literal.
pub open spec fn is_str_literal(e: Expr) -> bool {
    e matches Expr::Literal { value: LiteralValue::Str(_), .. }
}

/// Whether `l * r` repeats a one-element list literal `l`.
pub open spec fn is_list_repeat(op: BinaryOp, l: Expr) -> bool {
    &&& op is Mul
    &&& l matches Expr::List { elements, .. } && elements@.len() == 1
}

/// The C text of a binary operation whose operands have C texts `l` and
/// `r`. Arithmetic and ordering go through the dynamic helpers when either
/// operand gives a dynamic value (`dyn_operand`); equality does so as well
/// when either operand is a string literal (`str_operand`); `is` and
/// `is not` test for none when the right operand is none (`none_right`).
pub open spec fn binary_code(
    op: BinaryOp,
    l: Seq<char>,
    r: Seq<char>,
    dyn_operand: bool,
    str_operand: bool,
    none_right: bool,
) -> Seq<char> {
    match op {
        BinaryOp::Add => if dyn_operand {
            "(lucid_num("@ + l + ") + lucid_num("@ + r + "))"@
        } else {
            "("@ + l + " + "@ + r + ")"@
        },
        BinaryOp::Sub => if dyn_operand {
            "(lucid_num("@ + l + ") - lucid_num("@ + r + "))"@
        } else {
            "("@ + l + " - "@ + r + ")"@
        },
        BinaryOp::Mul => if dyn_operand {
            "(lucid_num("@ + l + ") * lucid_num("@ + r + "))"@
        } else {
            "("@ + l + " * "@ + r + ")"@
        },
        BinaryOp::Div => "((double)"@ + l + " / (double)"@ + r + ")"@,
        BinaryOp::FloorDiv => "((int64_t)((int64_t)"@ + l + " / (int64_t)"@ + r + "))"@,
        BinaryOp::Mod => "((int64_t)"@ + l + " % (int64_t)"@ + r + ")"@,
        BinaryOp::Pow => "pow((double)"@ + l + ", (double)"@ + r + ")"@,
        BinaryOp::Eq => if dyn_operand || str_operand {
            "lucid_eq(lucid_wrap("@ + l + "), lucid_wrap("@ + r + "))"@
        } else {
            "("@ + l + " == "@ + r + ")"@
        },
        BinaryOp::NotEq => if dyn_operand || str_operand {
            "(!lucid_eq(lucid_wrap("@ + l + "), lucid_wrap("@ + r + ")))"@
        } else {
            "("@ + l + " != "@ + r + ")"@
        },
        BinaryOp::Lt => if dyn_operand {
            "lucid_lt(lucid_wrap("@ + l + "), lucid_wrap("@ + r + "))"@
        } else {
            "("@ + l + " < "@ + r + ")"@
        },
        BinaryOp::LtEq => if dyn_operand {
            "lucid_lte(lucid_wrap("@ + l + "), lucid_wrap("@ + r + "))"@
        } else {
            "("@ + l + " <= "@ + r + ")"@
        },
        BinaryOp::Gt => if dyn_operand {
            "lucid_gt(lucid_wrap("@ + l + "), lucid_wrap("@ + r + "))"@
        } else {
            "("@ + l + " > "@ + r + ")"@
        },
        BinaryOp::GtEq => if dyn_operand {
            "lucid_gte(lucid_wrap("@ + l + "), lucid_wrap("@ + r + "))"@
        } else {
            "("@ + l + " >= "@ + r + ")"@
        },
        BinaryOp::BitAnd => "((int64_t)"@ + l + " & (int64_t)"@ + r + ")"@,
        BinaryOp::BitOr => "((int64_t)"@ + l + " | (int64_t)"@ + r + ")"@,
        BinaryOp::BitXor => "((int64_t)"@ + l + " ^ (int64_t)"@ + r + ")"@,
        BinaryOp::Shl => "((int64_t)"@ + l + " << (int64_t)"@ + r + ")"@,
        BinaryOp::Shr => "((int64_t)"@ + l + " >> (int64_t)"@ + r + ")"@,
        BinaryOp::And => "(lucid_bool_val("@ + l + ") && lucid_bool_val("@ + r + "))"@,
        BinaryOp::Or => "(lucid_bool_val("@ + l + ") || lucid_bool_val("@ + r + "))"@,
        BinaryOp::Is => if none_right {
            "lucid_is_none("@ + l + ")"@
        } else {
            "("@ + l + " == "@ + r + ")"@
        },
        BinaryOp::IsNot => if none_right {
            "(!lucid_is_none("@ + l + "))"@
        } else {
            "("@ + l + " != "@ + r + ")"@
        },
        _ => "("@ + l + " == "@ + r + ")"@,
    }
}

fn quoted_code(t: &String) -> (r: String)
    ensures
        r@ == "\""@ + escape_quotes(t@) + "\""@,
{
    let cs = crate::chars::str_chars(t.as_str());
    let mut r = String::from_str("\"");
    let ghost q = r@;
    let mut i: usize = 0;
    proof {
        assert(cs@.take(0) =~= Seq::<char>::empty());
        assert(r@ =~= q + escape_quotes(cs@.take(0)));
    }
    while i < cs.len()
        invariant
            cs@ == t@,
            i <= cs@.len(),
            r@ == q + escape_quotes(cs@.take(i as int)),
        decreases cs.len() - i,
    {
        proof {
            assert(cs@.take(i + 1).drop_last() =~= cs@.take(i as int));
            assert(cs@.take(i + 1).last() == cs@[i as int]);
        }
        if cs[i] == '"' {
            r.push('\\');
            r.push('"');
            proof {
                assert(r@ =~= q + escape_quotes(cs@.take(i + 1)));
            }
        } else {
            r.push(cs[i]);
            proof {
                assert(r@ =~= q + escape_quotes(cs@.take(i + 1)));
            }
        }
        i = i + 1;
    }
    proof {
        assert(cs@.take(cs@.len() as int) =~= cs@);
    }
    r.append("\"");
    r
}

fn contains_char(cs: &Vec<char>, c: char) -> (r: bool)
    ensures
        r == cs@.contains(c),
{
    let mut i: usize = 0;
    while i < cs.len()
        invariant
            i <= cs@.len(),
            forall|j: int| 0 <= j < i ==> cs@[j] != c,
        decreases cs.len() - i,
    {
        if cs[i] == c {
            return true;
        }
        i = i + 1;
    }
    false
}

fn float_text_code(f: &String) -> (r: String)
    ensures
        r@ == float_code(f@),
{
    let cs = crate::chars::str_chars(f.as_str());
    let mut r = f.clone();
    if !contains_char(&cs, '.') && !contains_char(&cs, 'e') && !contains_char(&cs, 'E') {
        r.append(".0");
    }
    r
}

/// "`a``b`".
fn cat2(a: &str, b: &str) -> (r: String)
    ensures
        r@ == a@ + b@,
{
    let mut r = String::from_str(a);
    r.append(b);
    r
}

/// "`a``b``c`".
fn cat3(a: &str, b: &str, c: &str) -> (r: String)
    ensures
        r@ == a@ + b@ + c@,
{
    let mut r = String::from_str(a);
    r.append(b);
    r.append(c);
    r
}

/// "`a``b``c``d``e`".
fn cat5(a: &str, b: &str, c: &str, d: &str, e: &str) -> (r: String)
    ensures
        r@ == a@ + b@ + c@ + d@ + e@,
{
    let mut r = String::from_str(a);
    r.append(b);
    r.append(c);
    r.append(d);
    r.append(e);
    r
}

/// The texts with ", " between each two.
fn join_comma_strings(parts: &Vec<String>) -> (r: String)
    ensures
        r@ == join_comma(parts@.map_values(|p: String| p@)),
{
    let ghost ps = parts@.map_values(|p: String| p@);
    let mut r = String::new();
    let mut i: usize = 0;
    proof {
        assert(ps.take(0) =~= Seq::<Seq<char>>::empty());
    }
    while i < parts.len()
        invariant
            i <= parts@.len(),
            ps == parts@.map_values(|p: String| p@),
            r@ == join_comma(ps.take(i as int)),
        decreases parts.len() - i,
    {
        let ghost before = r@;
        if i > 0 {
            r.append(", ");
        }
        r.append(parts[i].as_str());
        proof {
            assert(ps.take(i + 1).drop_last() =~= ps.take(i as int));
            assert(ps.take(i + 1).last() == parts@[i as int]@);
            if i == 0 {
                assert(ps.take(1) =~= seq![parts@[0]@]);
                assert(r@ =~= parts@[0]@);
            } else {
                assert(r@ =~= before + ", "@ + parts@[i as int]@);
            }
        }
        i = i + 1;
    }
    proof {
        assert(ps.take(parts@.len() as int) =~= ps);
    }
    r
}

fn copy_strings(v: &Vec<String>) -> (r: Vec<String>)
    ensures
        r@ == v@,
{
    let mut out: Vec<String> = Vec::new();
    let mut i: usize = 0;
    while i < v.len()
        invariant
            i <= v@.len(),
            out@ == v@.take(i as int),
        decreases v.len() - i,
    {
        out.push(v[i].clone());
        proof {
            assert(out@ =~= v@.take(i + 1));
        }
        i = i + 1;
    }
    proof {
        assert(out@ =~= v@);
    }
    out
}

impl CCodeGenerator {
    /// Whether `other` is this generator with only the temporary counter
    /// moved on.
    pub closed spec fn same_but_temps(&self, other: Self) -> bool {
        &&& self.buffer@ == other.buffer@
        &&& self.indent == other.indent
        &&& self.same_knowledge(other)
    }

    /// The C text of an expression built from literals, names, unary and
    /// binary operations, attribute reads, (non-slice) indexing and
    /// conditional expressions, which needs no temporaries; `None` for any
    /// other expression.
    pub open spec fn pure_code(&self, e: Expr) -> Option<Seq<char>>
        decreases e,
    {
        match e {
            Expr::Literal { .. } => simple_expr_code(e),
            Expr::Ident { .. } => simple_expr_code(e),
            Expr::Unary { op, expr: inner, .. } => match self.pure_code(*inner) {
                Some(c) => Some(unary_code(op, c)),
                None => None,
            },
            Expr::Binary { op, left, right, .. } => if is_list_repeat(op, *left) {
                None
            } else {
                match (self.pure_code(*left), self.pure_code(*right)) {
                    (Some(l), Some(r)) => Some(
                        binary_code(
                            op,
                            l,
                            r,
                            self.is_val_spec(*left) || self.is_val_spec(*right),
                            is_str_literal(*left) || is_str_literal(*right),
                            is_none_spec(*right),
                        ),
                    ),
                    _ => None,
                }
            },
            Expr::Attribute { value, attr, .. } => match self.pure_code(*value) {
                Some(v) => Some(v + "->"@ + attr@),
                None => None,
            },
            Expr::Index { value, index, .. } => if *index is Slice {
                None
            } else {
                match (self.pure_code(*value), self.pure_code(*index)) {
                    (Some(v), Some(i)) => Some(
                        "lucid_get_index(lucid_wrap("@ + v + "), lucid_int_val("@ + i + "))"@,
                    ),
                    _ => None,
                }
            },
            Expr::IfExpr { condition, then_branch, else_branch, .. } => match (
                self.pure_code(*condition),
                self.pure_code(*then_branch),
                self.pure_code(*else_branch),
            ) {
                (Some(c), Some(t), Some(e)) => Some(
                    "((lucid_bool_val("@ + c + ")) ? ("@ + t + ") : ("@ + e + "))"@,
                ),
                _ => None,
            },
            _ => None,
        }
    }

    /// Generators that know the same things give the same pure C text.
    pub proof fn lemma_pure_code_knowledge(&self, other: Self, e: Expr)
        requires
            self.same_knowledge(other),
        ensures
            self.pure_code(e) == other.pure_code(e),
            self.is_val_spec(e) == other.is_val_spec(e),
        decreases e,
    {
        match e {
            Expr::Unary { expr: inner, .. } => self.lemma_pure_code_knowledge(other, *inner),
            Expr::Binary { left, right, .. } => {
                self.lemma_pure_code_knowledge(other, *left);
                self.lemma_pure_code_knowledge(other, *right);
            },
            Expr::Attribute { value, .. } => self.lemma_pure_code_knowledge(other, *value),
            Expr::Index { value, index, .. } => {
                self.lemma_pure_code_knowledge(other, *value);
                self.lemma_pure_code_knowledge(other, *index);
            },
            Expr::IfExpr { condition, then_branch, else_branch, .. } => {
                self.lemma_pure_code_knowledge(other, *condition);
                self.lemma_pure_code_knowledge(other, *then_branch);
                self.lemma_pure_code_knowledge(other, *else_branch);
            },
            _ => {},
        }
    }

    /// The start, stop and step of a `range(...)` call with these arguments.
    /// The C texts of the start, stop and step of `range(...)` with these
    /// arguments when they have pure texts (see `pure_code`): one argument is
    /// the stop from 0 by 1, two are start and stop by 1, three are start,
    /// stop and step; any other count gives 0, 0 and 1.
    pub open spec fn range_code(&self, args: Seq<Arg>) -> Option<(Seq<char>, Seq<char>, Seq<char>)> {
        if args.len() == 1 {
            match self.pure_code(args[0].value) {
                Some(b) => Some(("0LL"@, b, "1LL"@)),
                None => None,
            }
        } else if args.len() == 2 {
            match (self.pure_code(args[0].value), self.pure_code(args[1].value)) {
                (Some(a), Some(b)) => Some((a, b, "1LL"@)),
                _ => None,
            }
        } else if args.len() == 3 {
            match (self.pure_code(args[0].value), self.pure_code(args[1].value), self.pure_code(args[2].value)) {
                (Some(a), Some(b), Some(c)) => Some((a, b, c)),
                _ => None,
            }
        } else {
            Some(("0LL"@, "0LL"@, "1LL"@))
        }
    }

    fn range_parts(&mut self, args: &Vec<Arg>) -> (r: (String, String, String))
        requires
            old(self).wf(),
            args_ok(args@),
        ensures
            final(self).wf(),
            final(self).same_but_temps(*old(self)),
            old(self).range_code(args@) matches Some((a, b, c)) ==> r.0@ == a && r.1@ == b && r.2@ == c,
        decreases args, 0nat,
    {
        let ghost start0 = *self;
        proof {
            if args.len() > 0 {
                lemma_args_ok(args@, 0);
            }
            if args.len() > 1 {
                lemma_args_ok(args@, 1);
            }
            if args.len() > 2 {
                lemma_args_ok(args@, 2);
            }
        }
        if args.len() == 1 {
            proof {
                assert(decreases_to!(args => args[0]));
            }
            let stop = self.emit_expr(&args[0].value);
            (String::from_str("0LL"), stop, String::from_str("1LL"))
        } else if args.len() == 2 {
            proof {
                assert(decreases_to!(args => args[0]));
                assert(decreases_to!(args => args[1]));
            }
            let start = self.emit_expr(&args[0].value);
            proof {
                self.lemma_pure_code_knowledge(start0, args@[1].value);
            }
            let stop = self.emit_expr(&args[1].value);
            (start, stop, String::from_str("1LL"))
        } else if args.len() == 3 {
            proof {
                assert(decreases_to!(args => args[0]));
                assert(decreases_to!(args => args[1]));
                assert(decreases_to!(args => args[2]));
            }
            let start = self.emit_expr(&args[0].value);
            proof {
                self.lemma_pure_code_knowledge(start0, args@[1].value);
            }
            let stop = self.emit_expr(&args[1].value);
            proof {
                self.lemma_pure_code_knowledge(start0, args@[2].value);
            }
            let step = self.emit_expr(&args[2].value);
            (start, stop, step)
        } else {
            (String::from_str("0LL"), String::from_str("0LL"), String::from_str("1LL"))
        }
    }

    /// The C code of each argument.
    /// The C texts of argument values, when each has a pure text (see
    /// `pure_code`).
    pub open spec fn args_code(&self, args: Seq<Arg>) -> Option<Seq<Seq<char>>>
        decreases args.len(),
    {
        if args.len() == 0 {
            Some(Seq::empty())
        } else {
            match (self.args_code(args.drop_last()), self.pure_code(args.last().value)) {
                (Some(a), Some(c)) => Some(a.push(c)),
                _ => None,
            }
        }
    }

    proof fn lemma_args_code_len(&self, args: Seq<Arg>)
        requires
            self.args_code(args) is Some,
        ensures
            self.args_code(args)->Some_0.len() == args.len(),
        decreases args.len(),
    {
        if args.len() > 0 {
            self.lemma_args_code_len(args.drop_last());
        }
    }

    proof fn lemma_args_code_prefix(&self, args: Seq<Arg>, i: int)
        requires
            self.args_code(args) is Some,
            0 <= i <= args.len(),
        ensures
            self.args_code(args.take(i)) is Some,
            self.args_code(args.take(i))->Some_0 == self.args_code(args)->Some_0.take(i),
            i < args.len() ==> self.pure_code(args[i].value) == Some(self.args_code(args)->Some_0[i]),
        decreases args.len() - i,
    {
        self.lemma_args_code_len(args);
        if i < args.len() {
            self.lemma_args_code_prefix(args, i + 1);
            self.lemma_args_code_len(args.take(i + 1));
            assert(args.take(i + 1).drop_last() =~= args.take(i));
            assert(args.take(i + 1).last() == args[i]);
            assert(self.args_code(args.take(i + 1))->Some_0[i] == self.args_code(args)->Some_0.take(i + 1)[i]);
            assert(self.args_code(args)->Some_0.take(i + 1).drop_last() =~= self.args_code(args)->Some_0.take(i));
        } else {
            assert(args.take(i) =~= args);
            assert(self.args_code(args)->Some_0.take(i) =~= self.args_code(args)->Some_0);
        }
    }

    proof fn lemma_args_code_knowledge(&self, other: Self, args: Seq<Arg>)
        requires
            self.same_knowledge(other),
        ensures
            self.args_code(args) == other.args_code(args),
        decreases args.len(),
    {
        if args.len() > 0 {
            self.lemma_args_code_knowledge(other, args.drop_last());
            self.lemma_pure_code_knowledge(other, args.last().value);
        }
    }

    fn emit_args(&mut self, args: &Vec<Arg>) -> (r: Vec<String>)
        requires
            old(self).wf(),
            args_ok(args@),
        ensures
            final(self).wf(),
            final(self).same_but_temps(*old(self)),
            r@.len() == args@.len(),
            old(self).args_code(args@) matches Some(cs) ==> r@.len() == cs.len() && forall|k: int|
                0 <= k < cs.len() ==> #[trigger] r@[k]@ == cs[k],
        decreases args, 0nat,
    {
        let mut out: Vec<String> = Vec::new();
        let mut i: usize = 0;
        let ghost start = *self;
        let ghost whole = start.args_code(args@) is Some;
        while i < args.len()
            invariant
                self.wf(),
                self.same_but_temps(start),
                args_ok(args@),
                i <= args@.len(),
                out@.len() == i,
                whole == (start.args_code(args@) is Some),
                whole ==> out@.map_values(|s: String| s@) == start.args_code(args@)->Some_0.take(i as int),
            decreases args.len() - i,
        {
            proof {
                lemma_args_ok(args@, i as int);
                assert(decreases_to!(args => args[i as int]));
                self.lemma_pure_code_knowledge(start, args@[i as int].value);
                if whole {
                    start.lemma_args_code_prefix(args@, i as int);
                    start.lemma_args_code_len(args@);
                }
            }
            let ghost before = out@;
            let c = self.emit_expr(&args[i].value);
            out.push(c);
            proof {
                if whole {
                    assert(out@.map_values(|s: String| s@) =~= start.args_code(args@)->Some_0.take(i + 1));
                }
            }
            i = i + 1;
        }
        proof {
            if whole {
                start.lemma_args_code_len(args@);
                assert(start.args_code(args@)->Some_0.take(args@.len() as int) =~= start.args_code(args@)->Some_0);
                start.lemma_args_code_prefix(args@, args@.len() as int);
                assert forall|k: int| 0 <= k < out@.len() implies #[trigger] out@[k]@ == start.args_code(args@)->Some_0[k] by {
                    assert(out@.map_values(|s: String| s@)[k] == out@[k]@);
                }
            }
        }
        out
    }

    /// The C code of an expression. Literals and names have fixed code (see
    /// `simple_expr_code`); the code of other expressions depends on what
    /// the generator knows of classes, functions and variables, and may use
    /// fresh temporaries. Calls get the code of `call_code`, comprehensions
    /// over a range that of `range_comp_code`. Nothing is appended to the
    /// output.
    #[verifier::loop_isolation(false)]
    pub fn emit_expr(&mut self, expr: &Expr) -> (r: String)
        requires
            old(self).wf(),
            appends_ok(*expr),
        ensures
            final(self).wf(),
            final(self).same_but_temps(*old(self)),
            simple_expr_code(*expr) matches Some(c) ==> r@ == c,
            old(self).pure_code(*expr) matches Some(c) ==> r@ == c,
            *expr is Call ==> (old(self).call_code(*expr) matches Some(c) ==> r@ == c),
            *expr is List && old(self).temp_count() < usize::MAX ==> (old(self).list_code(
                expr->List_elements@,
                "_lucid_tmp_"@ + crate::text::nat_text(old(self).temp_count() + 1),
            ) matches Some(c) ==> r@ == c),
            *expr is ListComp && old(self).temp_count() < usize::MAX ==> (old(self).range_comp_code(
                *expr,
                "_lucid_tmp_"@ + crate::text::nat_text(old(self).temp_count() + 1),
            ) matches Some(c) ==> r@ == c),
        decreases expr, 1nat,
    {
        let ghost start = *self;
        match expr {
            Expr::Literal { value, .. } => match value {
                LiteralValue::Int(n) => {
                    let t = crate::text::i64_to_string(*n);
                    cat2(t.as_str(), "LL")
                },
                LiteralValue::Float(f) => float_text_code(f),
                LiteralValue::Str(t) => quoted_code(t),
                LiteralValue::Bool(b) => if *b {
                    String::from_str("true")
                } else {
                    String::from_str("false")
                },
                _ => String::from_str("lucid_none()"),
            },
            Expr::Ident { name, .. } => {
                let n = name.as_str();
                if str_equal(n, "true") {
                    String::from_str("true")
                } else if str_equal(n, "false") {
                    String::from_str("false")
                } else if str_equal(n, "none") || str_equal(n, "None") {
                    String::from_str("lucid_none()")
                } else if str_equal(n, "self") {
                    String::from_str("self")
                } else {
                    cat2("lucid_var_", n)
                }
            },
            Expr::Binary { .. } => self.emit_binary(expr),
            Expr::Unary { op, expr: inner, .. } => {
                let e = self.emit_expr(inner);
                match op {
                    UnaryOp::Pos => cat3("(+", e.as_str(), ")"),
                    UnaryOp::Neg => cat3("(-", e.as_str(), ")"),
                    UnaryOp::Not => cat3("(!lucid_bool_val(", e.as_str(), "))"),
                    UnaryOp::Invert => cat3("(~(int64_t)", e.as_str(), ")"),
                    _ => e,
                }
            },
            Expr::Call { .. } => self.emit_call(expr),
            Expr::Index { value, index, .. } => {
                let v = self.emit_expr(value);
                match &**index {
                    Expr::Slice { start: st, stop, step, .. } => {
                        proof {
                            assert(appends_ok(**index));
                        }
                        let st_code = match st {
                            Some(x) => self.emit_expr(x),
                            None => String::from_str("0LL"),
                        };
                        let sp_code = match stop {
                            Some(x) => self.emit_expr(x),
                            None => cat3("lucid_len(lucid_wrap(", v.as_str(), "))"),
                        };
                        let step_code = match step {
                            Some(x) => self.emit_expr(x),
                            None => String::from_str("1LL"),
                        };
                        let mut r = cat3("lucid_list_slice(lucid_as_list(lucid_wrap(", v.as_str(), ")), ");
                        r.append(st_code.as_str());
                        r.append(", ");
                        r.append(sp_code.as_str());
                        r.append(", ");
                        r.append(step_code.as_str());
                        r.append(")");
                        r
                    },
                    _ => {
                        proof {
                            self.lemma_pure_code_knowledge(start, **index);
                        }
                        let i = self.emit_expr(index);
                        cat5("lucid_get_index(lucid_wrap(", v.as_str(), "), lucid_int_val(", i.as_str(), "))")
                    },
                }
            },
            Expr::Attribute { value, attr, .. } => {
                let v = self.emit_expr(value);
                cat3(v.as_str(), "->", attr.as_str())
            },
            Expr::List { elements, .. } => self.emit_list(elements),
            Expr::ListComp { .. } => self.emit_list_comp(expr),
            Expr::IfExpr { condition, then_branch, else_branch, .. } => {
                let c = self.emit_expr(condition);
                proof {
                    self.lemma_pure_code_knowledge(start, **then_branch);
                    self.lemma_pure_code_knowledge(start, **else_branch);
                }
                let t = self.emit_expr(then_branch);
                proof {
                    self.lemma_pure_code_knowledge(start, **else_branch);
                }
                let e = self.emit_expr(else_branch);
                let mut r = cat5("((lucid_bool_val(", c.as_str(), ")) ? (", t.as_str(), ") : (");
                r.append(e.as_str());
                r.append("))");
                r
            },
            _ => String::from_str("lucid_none()"),
        }
    }
}

impl CCodeGenerator {
    /// The C text of a list literal (see `list_code`).
    fn emit_list(&mut self, elements: &Vec<Expr>) -> (r: String)
        requires
            old(self).wf(),
            exprs_ok(elements@),
        ensures
            final(self).wf(),
            final(self).same_but_temps(*old(self)),
            old(self).temp_count() < usize::MAX ==> (old(self).list_code(
                elements@,
                "_lucid_tmp_"@ + crate::text::nat_text(old(self).temp_count() + 1),
            ) matches Some(c) ==> r@ == c),
        decreases elements, 0nat,
    {
        let ghost start = *self;
        let tmp = self.new_temp();
        let n = crate::text::usize_to_string(elements.len());
        let mut r = cat5("({ LucidList* ", tmp.as_str(), " = lucid_list_new(", n.as_str(), ");");
        let ghost head = r@;
        let ghost all_pure = forall|k: int| 0 <= k < elements@.len() ==> (#[trigger] start.pure_code(elements@[k])) is Some;
        let mut i: usize = 0;
        proof {
            assert(elements@.take(0) =~= Seq::<Expr>::empty());
            assert(r@ =~= head + Seq::<char>::empty());
        }
        while i < elements.len()
            invariant
                self.wf(),
                self.same_but_temps(start),
                exprs_ok(elements@),
                i <= elements@.len(),
                all_pure == (forall|k: int| 0 <= k < elements@.len() ==> (#[trigger] start.pure_code(elements@[k])) is Some),
                all_pure ==> (start.list_appends(elements@.take(i as int), tmp@) matches Some(a) && r@ == head + a),
            decreases elements.len() - i,
        {
            proof {
                lemma_exprs_ok(elements@, i as int);
                assert(decreases_to!(elements => elements[i as int]));
                self.lemma_pure_code_knowledge(start, elements@[i as int]);
            }
            let ghost before = r@;
            let c = self.emit_expr(&elements[i]);
            r.append(" lucid_list_append(");
            r.append(tmp.as_str());
            r.append(", lucid_wrap(");
            r.append(c.as_str());
            r.append("));");
            proof {
                let t1 = elements@.take(i + 1);
                assert(t1.drop_last() =~= elements@.take(i as int));
                assert(t1.last() == elements@[i as int]);
                if all_pure {
                    assert(start.pure_code(elements@[i as int]) is Some);
                    let a = start.list_appends(elements@.take(i as int), tmp@)->Some_0;
                    assert(r@ =~= head + (a + " lucid_list_append("@ + tmp@ + ", lucid_wrap("@ + c@ + "));"@));
                }
            }
            i = i + 1;
        }
        proof {
            assert(elements@.take(elements@.len() as int) =~= elements@);
        }
        r.append(" ");
        r.append(tmp.as_str());
        r.append("; })");
        r
    }

    fn emit_binary(&mut self, expr: &Expr) -> (r: String)
        requires
            old(self).wf(),
            appends_ok(*expr),
            *expr is Binary,
        ensures
            final(self).wf(),
            final(self).same_but_temps(*old(self)),
            old(self).pure_code(*expr) matches Some(c) ==> r@ == c,
        decreases expr, 0nat,
    {
        let ghost start = *self;
        match expr {
            Expr::Binary { op, left, right, .. } => {
                if matches!(op, BinaryOp::Mul) {
                    match &**left {
                        Expr::List { elements, .. } => {
                            if elements.len() == 1 {
                                proof {
                                    assert(appends_ok(**left));
                                    lemma_exprs_ok(elements@, 0);
                                    assert(decreases_to!(elements => elements[0]));
                                }
                                let elem = self.emit_expr(&elements[0]);
                                let count = self.emit_expr(right);
                                return cat5("lucid_list_repeat(lucid_wrap(", elem.as_str(), "), lucid_int_val(", count.as_str(), "))");
                            }
                        },
                        _ => {},
                    }
                }
                let l_is_val = self.expr_is_val(left);
                let r_is_val = self.expr_is_val(right);
                let l = self.emit_expr(left);
                proof {
                    self.lemma_pure_code_knowledge(start, **right);
                }
                let r = self.emit_expr(right);
                let ls = l.as_str();
                let rs = r.as_str();
                let either_val = l_is_val || r_is_val;
                let str_operand = matches!(**left, Expr::Literal { value: LiteralValue::Str(_), .. }) || matches!(**right, Expr::Literal { value: LiteralValue::Str(_), .. });
                let none_right = is_none_expr(right);
                let res = match op {
                    BinaryOp::Add => if either_val {
                        cat5("(lucid_num(", ls, ") + lucid_num(", rs, "))")
                    } else {
                        cat5("(", ls, " + ", rs, ")")
                    },
                    BinaryOp::Sub => if either_val {
                        cat5("(lucid_num(", ls, ") - lucid_num(", rs, "))")
                    } else {
                        cat5("(", ls, " - ", rs, ")")
                    },
                    BinaryOp::Mul => if either_val {
                        cat5("(lucid_num(", ls, ") * lucid_num(", rs, "))")
                    } else {
                        cat5("(", ls, " * ", rs, ")")
                    },
                    BinaryOp::Div => cat5("((double)", ls, " / (double)", rs, ")"),
                    BinaryOp::FloorDiv => cat5("((int64_t)((int64_t)", ls, " / (int64_t)", rs, "))"),
                    BinaryOp::Mod => cat5("((int64_t)", ls, " % (int64_t)", rs, ")"),
                    BinaryOp::Pow => cat5("pow((double)", ls, ", (double)", rs, ")"),
                    BinaryOp::Eq => if either_val || str_operand {
                        cat5("lucid_eq(lucid_wrap(", ls, "), lucid_wrap(", rs, "))")
                    } else {
                        cat5("(", ls, " == ", rs, ")")
                    },
                    BinaryOp::NotEq => if either_val || str_operand {
                        cat5("(!lucid_eq(lucid_wrap(", ls, "), lucid_wrap(", rs, ")))")
                    } else {
                        cat5("(", ls, " != ", rs, ")")
                    },
                    BinaryOp::Lt => if either_val {
                        cat5("lucid_lt(lucid_wrap(", ls, "), lucid_wrap(", rs, "))")
                    } else {
                        cat5("(", ls, " < ", rs, ")")
                    },
                    BinaryOp::LtEq => if either_val {
                        cat5("lucid_lte(lucid_wrap(", ls, "), lucid_wrap(", rs, "))")
                    } else {
                        cat5("(", ls, " <= ", rs, ")")
                    },
                    BinaryOp::Gt => if either_val {
                        cat5("lucid_gt(lucid_wrap(", ls, "), lucid_wrap(", rs, "))")
                    } else {
                        cat5("(", ls, " > ", rs, ")")
                    },
                    BinaryOp::GtEq => if either_val {
                        cat5("lucid_gte(lucid_wrap(", ls, "), lucid_wrap(", rs, "))")
                    } else {
                        cat5("(", ls, " >= ", rs, ")")
                    },
                    BinaryOp::BitAnd => cat5("((int64_t)", ls, " & (int64_t)", rs, ")"),
                    BinaryOp::BitOr => cat5("((int64_t)", ls, " | (int64_t)", rs, ")"),
                    BinaryOp::BitXor => cat5("((int64_t)", ls, " ^ (int64_t)", rs, ")"),
                    BinaryOp::Shl => cat5("((int64_t)", ls, " << (int64_t)", rs, ")"),
                    BinaryOp::Shr => cat5("((int64_t)", ls, " >> (int64_t)", rs, ")"),
                    BinaryOp::And => cat5("(lucid_bool_val(", ls, ") && lucid_bool_val(", rs, "))"),
                    BinaryOp::Or => cat5("(lucid_bool_val(", ls, ") || lucid_bool_val(", rs, "))"),
                    BinaryOp::Is => if none_right {
                        cat3("lucid_is_none(", ls, ")")
                    } else {
                        cat5("(", ls, " == ", rs, ")")
                    },
                    BinaryOp::IsNot => if none_right {
                        cat3("(!lucid_is_none(", ls, "))")
                    } else {
                        cat5("(", ls, " != ", rs, ")")
                    },
                    _ => cat5("(", ls, " == ", rs, ")"),
                };
                res
            },
            _ => String::from_str("lucid_none()"),
        }
    }

    fn emit_first_arg(&mut self, args: &Vec<Arg>, prefix: &str, suffix: &str) -> (r: Option<String>)
        requires
            old(self).wf(),
            args_ok(args@),
        ensures
            final(self).wf(),
            final(self).same_but_temps(*old(self)),
            r is Some <==> args@.len() > 0,
            args@.len() > 0 ==> (old(self).pure_code(args@[0].value) matches Some(c) ==> r matches Some(x) && x@
                == prefix@ + c + suffix@),
        decreases args, 0nat,
    {
        if args.len() > 0 {
            proof {
                lemma_args_ok(args@, 0);
                assert(decreases_to!(args => args[0]));
            }
            let a = self.emit_expr(&args[0].value);
            Some(cat3(prefix, a.as_str(), suffix))
        } else {
            None
        }
    }

    /// The C text of a call whose arguments have pure texts (see
    /// `args_code`): `print` prints each value with a space between them and
    /// a line break after; `len`, `abs`, `round`, `int`, `float` and `sum`
    /// of one argument, and `round` of two, call the runtime helper; a call
    /// of a name that is none of these builtins (nor `list`) and no known
    /// class calls the generated function; `time.time()` reads the clock.
    /// `None` for any other call.
    pub closed spec fn call_code(&self, e: Expr) -> Option<Seq<char>> {
        match e {
            Expr::Call { func, args, .. } => match *func {
                Expr::Ident { name, .. } => {
                    let n = name@;
                    if n == "print"@ {
                        match self.args_code(args@) {
                            Some(cs) => Some("({ "@ + print_items(cs) + "printf(\"\\n\"); lucid_none(); })"@),
                            None => None,
                        }
                    } else if n == "round"@ && args@.len() >= 2 {
                        match (self.pure_code(args@[0].value), self.pure_code(args@[1].value)) {
                            (Some(a0), Some(a1)) => Some(
                                "lucid_round_places(lucid_as_float(lucid_wrap("@ + a0 + ")), lucid_as_int(lucid_wrap("@
                                    + a1 + ")))"@,
                            ),
                            _ => None,
                        }
                    } else if builtin_wrap(n, args@.len()) is Some && args@.len() > 0 {
                        match self.pure_code(args@[0].value) {
                            Some(c) => Some(builtin_wrap(n, args@.len())->Some_0.0 + c + builtin_wrap(n, args@.len())->Some_0.1),
                            None => None,
                        }
                    } else if !is_builtin_call_name(n) && !self.known_classes.view().contains_key(n) {
                        match self.args_code(args@) {
                            Some(cs) => Some("lucid_fn_"@ + n + "("@ + join_comma(cs) + ")"@),
                            None => None,
                        }
                    } else {
                        None
                    }
                },
                Expr::Attribute { value: obj, attr, .. } => if (*obj matches Expr::Ident { name, .. } && name@ == "time"@)
                    && attr@ == "time"@ {
                    Some("lucid_time_now()"@)
                } else {
                    None
                },
                _ => None,
            },
            _ => None,
        }
    }

    #[verifier::loop_isolation(false)]
    fn emit_call(&mut self, expr: &Expr) -> (r: String)
        requires
            old(self).wf(),
            appends_ok(*expr),
        ensures
            final(self).wf(),
            final(self).same_but_temps(*old(self)),
            old(self).call_code(*expr) matches Some(c) ==> r@ == c,
        decreases expr, 0nat,
    {
        let ghost start = *self;
        proof {
            lemma_builtin_names_distinct();
        }
        match expr {
            Expr::Call { func, args, .. } => {
                match &**func {
                    Expr::Ident { name, .. } => {
                        let n = name.as_str();
                        if str_equal(n, "print") {
                            let codes = self.emit_args(args);
                            let ghost cv = codes@.map_values(|s: String| s@);
                            proof {
                                if start.args_code(args@) is Some {
                                    assert(cv =~= start.args_code(args@)->Some_0);
                                }
                            }
                            let mut r = String::from_str("({ ");
                            proof {
                                assert(cv.take(0) =~= Seq::<Seq<char>>::empty());
                                assert(r@ =~= "({ "@ + print_items(cv.take(0)));
                            }
                            let mut i: usize = 0;
                            while i < codes.len()
                                invariant
                                    i <= codes@.len(),
                                    cv == codes@.map_values(|s: String| s@),
                                    r@ == "({ "@ + print_items(cv.take(i as int)),
                                decreases codes.len() - i,
                            {
                                if i > 0 {
                                    r.append("printf(\" \"); ");
                                }
                                r.append("lucid_print_val(lucid_wrap(");
                                r.append(codes[i].as_str());
                                r.append(")); ");
                                proof {
                                    assert(cv.take(i + 1).drop_last() =~= cv.take(i as int));
                                    assert(cv.take(i + 1).last() == codes@[i as int]@);
                                    assert(r@ =~= "({ "@ + print_items(cv.take(i + 1)));
                                }
                                i = i + 1;
                            }
                            proof {
                                assert(cv.take(codes@.len() as int) =~= cv);
                            }
                            r.append("printf(\"\\n\"); lucid_none(); })");
                            return r;
                        }
                        if str_equal(n, "len") {
                            if let Some(r) = self.emit_first_arg(args, "lucid_len(lucid_wrap(", "))") {
                                return r;
                            }
                        } else if str_equal(n, "abs") {
                            if let Some(r) = self.emit_first_arg(args, "fabs(lucid_as_float(lucid_wrap(", ")))") {
                                return r;
                            }
                        } else if str_equal(n, "round") {
                            if args.len() == 1 {
                                if let Some(r) = self.emit_first_arg(args, "round(lucid_as_float(lucid_wrap(", ")))") {
                                    return r;
                                }
                            } else if args.len() >= 2 {
                                proof {
                                    lemma_args_ok(args@, 0);
                                    lemma_args_ok(args@, 1);
                                    assert(decreases_to!(args => args[0]));
                                    assert(decreases_to!(args => args[1]));
                                }
                                let a0 = self.emit_expr(&args[0].value);
                                proof {
                                    self.lemma_pure_code_knowledge(start, args@[1].value);
                                }
                                let a1 = self.emit_expr(&args[1].value);
                                return cat5(
                                    "lucid_round_places(lucid_as_float(lucid_wrap(",
                                    a0.as_str(),
                                    ")), lucid_as_int(lucid_wrap(",
                                    a1.as_str(),
                                    ")))",
                                );
                            }
                        } else if str_equal(n, "int") {
                            if let Some(r) = self.emit_first_arg(args, "lucid_as_int(lucid_wrap(", "))") {
                                return r;
                            }
                        } else if str_equal(n, "float") {
                            if let Some(r) = self.emit_first_arg(args, "lucid_as_float(lucid_wrap(", "))") {
                                return r;
                            }
                        } else if str_equal(n, "sum") {
                            if let Some(r) = self.emit_first_arg(args, "lucid_list_sum(lucid_as_list(lucid_wrap(", ")))") {
                                return r;
                            }
                        } else if str_equal(n, "list") {
                            if args.len() > 0 {
                                proof {
                                    lemma_args_ok(args@, 0);
                                    assert(decreases_to!(args => args[0]));
                                }
                                match &args[0].value {
                                    Expr::Call { func: inner_func, args: inner_args, .. } => {
                                        match &**inner_func {
                                            Expr::Ident { name: inner_name, .. } => {
                                                if str_equal(inner_name.as_str(), "range") {
                                                    proof {
                                                        assert(decreases_to!(args[0].value => inner_args));
                                                    }
                                                    let (st, sp, step) = self.range_parts(inner_args);
                                                    let mut r = cat5("lucid_range_to_list(", st.as_str(), ", ", sp.as_str(), ", ");
                                                    r.append(step.as_str());
                                                    r.append(")");
                                                    return r;
                                                }
                                            },
                                            _ => {},
                                        }
                                    },
                                    _ => {},
                                }
                                if let Some(r) = self.emit_first_arg(args, "lucid_as_list(lucid_wrap(", "))") {
                                    return r;
                                }
                            }
                        }
                        // A class constructor: the fields in order, each from the
                        // argument of its name or at its position, else NULL.
                        let fields_known = match self.known_classes.get(n) {
                            Some(fs) => Some(copy_strings(fs)),
                            None => None,
                        };
                        if let Some(field_names) = fields_known {
                            let mut arg_map: Table<usize> = Table::new();
                            let mut i: usize = 0;
                            while i < args.len()
                                invariant
                                    arg_map.wf(),
                                    i <= args@.len(),
                                    forall|k: Seq<char>| #[trigger] arg_map.view().contains_key(k) ==> arg_map.view()[k] < args@.len(),
                                decreases args.len() - i,
                            {
                                match &args[i].name {
                                    Some(arg_name) => {
                                        arg_map.insert(arg_name.clone(), i);
                                    },
                                    None => {
                                        if i < field_names.len() {
                                            arg_map.insert(field_names[i].clone(), i);
                                        }
                                    },
                                }
                                i = i + 1;
                            }
                            let mut c_args: Vec<String> = Vec::new();
                            let mut j: usize = 0;
                            while j < field_names.len()
                                invariant
                                    self.wf(),
                                    self.same_but_temps(start),
                                    args_ok(args@),
                                    arg_map.wf(),
                                    forall|k: Seq<char>| #[trigger] arg_map.view().contains_key(k) ==> arg_map.view()[k] < args@.len(),
                                    j <= field_names@.len(),
                                decreases field_names.len() - j,
                            {
                                match arg_map.get(field_names[j].as_str()) {
                                    Some(idx) => {
                                        let k = *idx;
                                        proof {
                                            lemma_args_ok(args@, k as int);
                                            assert(decreases_to!(args => args[k as int]));
                                        }
                                        if is_none_expr(&args[k].value) {
                                            c_args.push(String::from_str("NULL"));
                                        } else {
                                            let c = self.emit_expr(&args[k].value);
                                            c_args.push(c);
                                        }
                                    },
                                    None => {
                                        c_args.push(String::from_str("NULL"));
                                    },
                                }
                                j = j + 1;
                            }
                            let joined = join_comma_strings(&c_args);
                            return cat5(n, "_new(", joined.as_str(), ")", "");
                        }
                        proof {
                            self.lemma_args_code_knowledge(start, args@);
                        }
                        let codes = self.emit_args(args);
                        proof {
                            if start.args_code(args@) is Some {
                                assert(codes@.map_values(|p: String| p@) =~= start.args_code(args@)->Some_0);
                            }
                        }
                        let joined = join_comma_strings(&codes);
                        cat5("lucid_fn_", n, "(", joined.as_str(), ")")
                    },
                    Expr::Attribute { value: obj, attr, .. } => {
                        let is_time = match &**obj {
                            Expr::Ident { name, .. } => str_equal(name.as_str(), "time"),
                            _ => false,
                        };
                        if is_time && str_equal(attr.as_str(), "time") {
                            return String::from_str("lucid_time_now()");
                        }
                        proof {
                            assert(appends_ok(**func));
                            assert(appends_ok(**obj));
                        }
                        if str_equal(attr.as_str(), "append") {
                            proof {
                                lemma_args_ok(args@, 0);
                                assert(decreases_to!(args => args[0]));
                            }
                            let o = self.emit_expr(obj);
                            let v = self.emit_expr(&args[0].value);
                            return cat5("lucid_list_append(lucid_as_list(lucid_wrap(", o.as_str(), ")), lucid_wrap(", v.as_str(), "))");
                        }
                        let cls = match self.known_methods.get(attr.as_str()) {
                            Some(c) => Some(c.clone()),
                            None => None,
                        };
                        if let Some(cls_name) = cls {
                            let o = self.emit_expr(obj);
                            let mut all_args: Vec<String> = Vec::new();
                            all_args.push(o);
                            let mut i: usize = 0;
                            while i < args.len()
                                invariant
                                    self.wf(),
                                    self.same_but_temps(start),
                                    args_ok(args@),
                                    i <= args@.len(),
                                decreases args.len() - i,
                            {
                                proof {
                                    lemma_args_ok(args@, i as int);
                                    assert(decreases_to!(args => args[i as int]));
                                }
                                let c = self.emit_expr(&args[i].value);
                                all_args.push(c);
                                i = i + 1;
                            }
                            let joined = join_comma_strings(&all_args);
                            let mut r = cat3(cls_name.as_str(), "_", attr.as_str());
                            r.append("(");
                            r.append(joined.as_str());
                            r.append(")");
                            return r;
                        }
                        let f = self.emit_expr(func);
                        let codes = self.emit_args(args);
                        let joined = join_comma_strings(&codes);
                        cat5(f.as_str(), "(", joined.as_str(), ")", "")
                    },
                    _ => {
                        let f = self.emit_expr(func);
                        let codes = self.emit_args(args);
                        let joined = join_comma_strings(&codes);
                        cat5(f.as_str(), "(", joined.as_str(), ")", "")
                    },
                }
            },
            _ => String::from_str("lucid_none()"),
        }
    }

    /// The C text of a comprehension `[element for name in range(...) if
    /// condition]` whose parts have pure texts (see `pure_code` and
    /// `range_code`), given the name `tmp` of the temporary list: a block
    /// that fills the list in a counting loop and gives it.
    pub open spec fn range_comp_code(&self, e: Expr, tmp: Seq<char>) -> Option<Seq<char>> {
        match e {
            Expr::ListComp { element, target, iter, condition, .. } => match (target, *iter) {
                (Pattern::Ident(v, _), Expr::Call { func, args, .. }) => if (*func matches Expr::Ident { name, .. }
                    && name@ == "range"@) {
                    let cond = match condition {
                        Some(c) => match self.pure_code(*c) {
                            Some(cc) => Some("if (lucid_bool_val("@ + cc + ")) "@),
                            None => None,
                        },
                        None => Some(Seq::<char>::empty()),
                    };
                    match (self.range_code(args@), self.pure_code(*element), cond) {
                        (Some((st, sp, step)), Some(el), Some(cd)) => Some(
                            "({ LucidList* "@ + tmp + " = lucid_list_new(8); for (int64_t lucid_var_"@ + v@ + " = "@
                                + st + "; lucid_var_"@ + v@ + " < "@ + sp + "; lucid_var_"@ + v@ + " += "@ + step
                                + ") { "@ + cd + "lucid_list_append("@ + tmp + ", lucid_wrap("@ + el + ")); } "@
                                + tmp + "; })"@,
                        ),
                        _ => None,
                    }
                } else {
                    None
                },
                _ => None,
            },
            _ => None,
        }
    }

    /// The appends that fill the temporary list `tmp` with the elements, when
    /// each has a pure text (see `pure_code`).
    pub open spec fn list_appends(&self, els: Seq<Expr>, tmp: Seq<char>) -> Option<Seq<char>>
        decreases els.len(),
    {
        if els.len() == 0 {
            Some(Seq::empty())
        } else {
            match (self.list_appends(els.drop_last(), tmp), self.pure_code(els.last())) {
                (Some(a), Some(c)) => Some(a + " lucid_list_append("@ + tmp + ", lucid_wrap("@ + c + "));"@),
                _ => None,
            }
        }
    }

    /// The C text of a list literal whose elements have pure texts, given the
    /// name `tmp` of the temporary list: a block that makes the list with
    /// room for the elements, appends each, and gives the list.
    pub open spec fn list_code(&self, els: Seq<Expr>, tmp: Seq<char>) -> Option<Seq<char>> {
        if forall|k: int| 0 <= k < els.len() ==> (#[trigger] self.pure_code(els[k])) is Some {
            Some(
                "({ LucidList* "@ + tmp + " = lucid_list_new("@ + crate::text::nat_text(els.len()) + ");"@
                    + self.list_appends(els, tmp)->Some_0 + " "@ + tmp + "; })"@,
            )
        } else {
            None
        }
    }

    proof fn lemma_range_code_knowledge(&self, other: Self, args: Seq<Arg>)
        requires
            self.same_knowledge(other),
        ensures
            self.range_code(args) == other.range_code(args),
    {
        if args.len() > 0 {
            self.lemma_pure_code_knowledge(other, args[0].value);
        }
        if args.len() > 1 {
            self.lemma_pure_code_knowledge(other, args[1].value);
        }
        if args.len() > 2 {
            self.lemma_pure_code_knowledge(other, args[2].value);
        }
    }

    fn emit_list_comp(&mut self, expr: &Expr) -> (r: String)
        requires
            old(self).wf(),
            appends_ok(*expr),
        ensures
            final(self).wf(),
            final(self).same_but_temps(*old(self)),
            old(self).temp_count() < usize::MAX ==> (old(self).range_comp_code(
                *expr,
                "_lucid_tmp_"@ + crate::text::nat_text(old(self).temp_count() + 1),
            ) matches Some(c) ==> r@ == c),
        decreases expr, 0nat,
    {
        let ghost start = *self;
        match expr {
            Expr::ListComp { element, target, iter, condition, .. } => {
                let tmp_list = self.new_temp();
                let var_name = match target {
                    Pattern::Ident(name, _) => name.clone(),
                    _ => self.new_temp(),
                };
                match &**iter {
                    Expr::Call { func, args, .. } => {
                        match &**func {
                            Expr::Ident { name, .. } => {
                                if str_equal(name.as_str(), "range") {
                                    proof {
                                        assert(decreases_to!(**iter => args));
                                        assert(appends_ok(**iter));
                                        assert(args_ok(args@));
                                    }
                                    proof {
                                        self.lemma_range_code_knowledge(start, args@);
                                    }
                                    let (st, sp, step) = self.range_parts(args);
                                    proof {
                                        self.lemma_pure_code_knowledge(start, **element);
                                    }
                                    let elem = self.emit_expr(element);
                                    let cond = match condition {
                                        Some(c) => {
                                            proof {
                                                self.lemma_pure_code_knowledge(start, **c);
                                            }
                                            let cc = self.emit_expr(c);
                                            cat3("if (lucid_bool_val(", cc.as_str(), ")) ")
                                        },
                                        None => String::new(),
                                    };
                                    let mut r = cat3("({ LucidList* ", tmp_list.as_str(), " = lucid_list_new(8); for (int64_t lucid_var_");
                                    r.append(var_name.as_str());
                                    r.append(" = ");
                                    r.append(st.as_str());
                                    r.append("; lucid_var_");
                                    r.append(var_name.as_str());
                                    r.append(" < ");
                                    r.append(sp.as_str());
                                    r.append("; lucid_var_");
                                    r.append(var_name.as_str());
                                    r.append(" += ");
                                    r.append(step.as_str());
                                    r.append(") { ");
                                    r.append(cond.as_str());
                                    r.append("lucid_list_append(");
                                    r.append(tmp_list.as_str());
                                    r.append(", lucid_wrap(");
                                    r.append(elem.as_str());
                                    r.append(")); } ");
                                    r.append(tmp_list.as_str());
                                    r.append("; })");
                                    return r;
                                }
                            },
                            _ => {},
                        }
                    },
                    _ => {},
                }
                let iter_code = self.emit_expr(iter);
                let tmp_i = self.new_temp();
                let tmp_iter_l = self.new_temp();
                let elem = self.emit_expr(element);
                let cond = match condition {
                    Some(c) => {
                        let cc = self.emit_expr(c);
                        cat3("if (lucid_bool_val(", cc.as_str(), ")) ")
                    },
                    None => String::new(),
                };
                let l = tmp_iter_l.as_str();
                let mut r = cat5("({ LucidList* ", l, " = lucid_as_list(lucid_wrap(", iter_code.as_str(), ")); LucidList* ");
                r.append(tmp_list.as_str());
                r.append(" = lucid_list_new(");
                r.append(l);
                r.append(" ? ");
                r.append(l);
                r.append("->len : 8); for (int64_t ");
                r.append(tmp_i.as_str());
                r.append(" = 0; ");
                r.append(l);
                r.append(" && ");
                r.append(tmp_i.as_str());
                r.append(" < ");
                r.append(l);
                r.append("->len; ");
                r.append(tmp_i.as_str());
                r.append("++) { LucidVal lucid_var_");
                r.append(var_name.as_str());
                r.append(" = ");
                r.append(l);
                r.append("->items[");
                r.append(tmp_i.as_str());
                r.append("]; ");
                r.append(cond.as_str());
                r.append("lucid_list_append(");
                r.append(tmp_list.as_str());
                r.append(", lucid_wrap(");
                r.append(elem.as_str());
                r.append(")); } ");
                r.append(tmp_list.as_str());
                r.append("; })");
                r
            },
            _ => String::from_str("lucid_none()"),
        }
    }
}

/// Whether every call of a method named `append` in the code generated for
/// a statement has an argument.
pub open spec fn stmt_ok(s: Stmt) -> bool
    decreases s,
{
    match s {
        Stmt::VarDef { value, .. } => match value {
            Some(v) => appends_ok(v),
            None => true,
        },
        Stmt::Assignment { target, value, .. } => appends_ok(target) && appends_ok(value),
        Stmt::AugAssign { target, value, .. } => appends_ok(target) && appends_ok(value),
        Stmt::If { condition, then_branch, elif_branches, else_branch, .. } => appends_ok(condition) && block_ok(
            then_branch@,
        ) && elifs_ok(elif_branches@) && match else_branch {
            Some(b) => block_ok(b@),
            None => true,
        },
        Stmt::While { condition, body, .. } => appends_ok(condition) && block_ok(body@),
        Stmt::For { iterable, body, .. } => appends_ok(iterable) && block_ok(body@),
        Stmt::Return { value, .. } => match value {
            Some(v) => appends_ok(v),
            None => true,
        },
        Stmt::Expr(e) => appends_ok(e),
        _ => true,
    }
}

pub open spec fn block_ok(ss: Seq<Stmt>) -> bool
    decreases ss,
{
    if ss.len() == 0 {
        true
    } else {
        block_ok(ss.drop_last()) && stmt_ok(ss.last())
    }
}

pub open spec fn elifs_ok(elifs: Seq<(Expr, Vec<Stmt>)>) -> bool
    decreases elifs,
{
    if elifs.len() == 0 {
        true
    } else {
        elifs_ok(elifs.drop_last()) && appends_ok(elifs.last().0) && block_ok(elifs.last().1@)
    }
}

pub proof fn lemma_block_ok(ss: Seq<Stmt>, i: int)
    requires
        block_ok(ss),
        0 <= i < ss.len(),
    ensures
        stmt_ok(ss[i]),
    decreases ss.len(),
{
    if i < ss.len() - 1 {
        assert(ss.drop_last()[i] == ss[i]);
        lemma_block_ok(ss.drop_last(), i);
    }
}

pub proof fn lemma_elifs_ok(elifs: Seq<(Expr, Vec<Stmt>)>, i: int)
    requires
        elifs_ok(elifs),
        0 <= i < elifs.len(),
    ensures
        appends_ok(elifs[i].0),
        block_ok(elifs[i].1@),
    decreases elifs.len(),
{
    if i < elifs.len() - 1 {
        assert(elifs.drop_last()[i] == elifs[i]);
        lemma_elifs_ok(elifs.drop_last(), i);
    }
}

/// Whether the method bodies of a class body pass `block_ok`.
pub open spec fn members_ok(ms: Seq<ClassMember>) -> bool {
    forall|i: int| 0 <= i < ms.len() ==> (#[trigger] ms[i] matches ClassMember::Method(m) ==> block_ok(m.body@))
}

/// Whether every call of a method named `append` that code is generated for
/// in a module has an argument.
pub open spec fn module_ok(ss: Seq<Stmt>) -> bool {
    forall|i: int|
        0 <= i < ss.len() ==> match #[trigger] ss[i] {
            Stmt::ClassDef { body, .. } => members_ok(body@),
            Stmt::Function(f) => block_ok(f.body@),
            Stmt::InterfaceDef { .. } => true,
            Stmt::TraitDef { .. } => true,
            other => stmt_ok(other),
        }
}

impl CCodeGenerator {
    fn indent_in(&mut self)
        ensures
            final(self).indent_level() == (if old(self).indent_level() < usize::MAX {
                old(self).indent_level() + 1
            } else {
                0
            }),
            final(self).output() == old(self).output(),
            final(self).temp_count() == old(self).temp_count(),
            final(self).wf() == old(self).wf(),
            final(self).same_knowledge(*old(self)),
    {
        self.indent = self.indent.wrapping_add(1);
    }

    fn indent_out(&mut self)
        ensures
            final(self).indent_level() == (if old(self).indent_level() > 0 {
                (old(self).indent_level() - 1) as nat
            } else {
                usize::MAX as nat
            }),
            final(self).output() == old(self).output(),
            final(self).temp_count() == old(self).temp_count(),
            final(self).wf() == old(self).wf(),
            final(self).same_knowledge(*old(self)),
    {
        self.indent = self.indent.wrapping_sub(1);
    }

    /// Whether `other` is this generator with text appended, the same
    /// indentation and the same knowledge.
    pub closed spec fn extends(&self, other: Self) -> bool {
        &&& other.buffer@.is_prefix_of(self.buffer@)
        &&& self.indent == other.indent
        &&& self.same_knowledge(other)
    }

    proof fn lemma_extends_trans(a: Self, b: Self, c: Self)
        requires
            b.extends(a),
            c.extends(b),
        ensures
            c.extends(a),
    {
        crate::text::lemma_prefix_trans(a.buffer@, b.buffer@, c.buffer@);
    }

    proof fn lemma_extends_refl(a: Self)
        ensures
            a.extends(a),
    {
        assert(a.buffer@.subrange(0, a.buffer@.len() as int) =~= a.buffer@);
    }

    fn line(&mut self, s: &str)
        ensures
            final(self).extends(*old(self)),
            final(self).output() == old(self).output() + indent_text(old(self).indent_level()) + s@ + seq!['\n'],
            final(self).indent_level() == old(self).indent_level(),
            final(self).same_knowledge(*old(self)),
            final(self).temp_count() == old(self).temp_count(),
            final(self).wf() == old(self).wf(),
    {
        let ghost before = *self;
        self.emit_line(s);
        proof {
            assert(self.buffer@.subrange(0, before.buffer@.len() as int) =~= before.buffer@);
        }
    }

    /// The C text that an assignment of code `c` (for `value`) to the
    /// variable `n` takes: a variable of dynamic type wraps the value, a
    /// typed variable unwraps a dynamic value to its type.
    pub closed spec fn assign_line(&self, n: Seq<char>, value: Expr, c: Seq<char>) -> Seq<char> {
        let ty = match self.known_var_type(n) {
            Some(t) => t,
            None => "LucidVal"@,
        };
        let dynamic = self.is_val_spec(value);
        if ty == "LucidVal"@ {
            "lucid_var_"@ + n + " = lucid_wrap("@ + c + ");"@
        } else if ty == "int64_t"@ && dynamic {
            "lucid_var_"@ + n + " = lucid_int_val("@ + c + ");"@
        } else if ty == "double"@ && dynamic {
            "lucid_var_"@ + n + " = lucid_num("@ + c + ");"@
        } else if ty == "const char*"@ && dynamic {
            "lucid_var_"@ + n + " = lucid_as_str("@ + c + ");"@
        } else if ty == "LucidList*"@ && dynamic {
            "lucid_var_"@ + n + " = lucid_as_list("@ + c + ");"@
        } else {
            "lucid_var_"@ + n + " = "@ + c + ";"@
        }
    }

    /// The C text of an augmented assignment `n op= value`, where `value`
    /// has code `c`: a dynamic value is unwrapped to the variable's type
    /// (a number when the type is unknown).
    pub closed spec fn aug_assign_line(&self, n: Seq<char>, op: BinaryOp, value: Expr, c: Seq<char>) -> Seq<char> {
        let o = aug_op_text(op);
        if self.is_val_spec(value) {
            let ty = match self.known_var_type(n) {
                Some(t) => t,
                None => "double"@,
            };
            "lucid_var_"@ + n + " "@ + o + "= "@ + (if ty == "int64_t"@ {
                "lucid_int_val("@
            } else {
                "lucid_num("@
            }) + c + ");"@
        } else {
            "lucid_var_"@ + n + " "@ + o + "= "@ + c + ";"@
        }
    }

    /// The C text of `return` with code `c` in the current function: the
    /// value is unwrapped to the declared return type.
    pub closed spec fn return_line(&self, c: Seq<char>) -> Seq<char> {
        match self.current_fn_ret_type {
            Some(rt) => if rt@ == "int64_t"@ {
                "return lucid_as_int(lucid_wrap("@ + c + "));"@
            } else if rt@ == "double"@ {
                "return lucid_as_float(lucid_wrap("@ + c + "));"@
            } else if rt@ == "bool"@ {
                "return lucid_as_bool(lucid_wrap("@ + c + "));"@
            } else if rt@ == "const char*"@ {
                "return lucid_as_str(lucid_wrap("@ + c + "));"@
            } else if rt@ == "LucidList*"@ {
                "return lucid_as_list(lucid_wrap("@ + c + "));"@
            } else if rt@ == "void"@ {
                "return;"@
            } else {
                "return ("@ + rt@ + ")lucid_as_ptr(lucid_wrap("@ + c + "));"@
            },
            None => "return "@ + c + ";"@,
        }
    }

    /// The one line of C that a simple statement becomes: an expression
    /// statement, `break`, `continue`, `return`, the definition of a name
    /// with a value, or an assignment to a variable or an attribute, each
    /// with operands that have a pure C text (see `pure_code`); `None`
    /// otherwise.
    pub closed spec fn simple_stmt_line(&self, s: Stmt) -> Option<Seq<char>> {
        match s {
            Stmt::Expr(e) => match self.pure_code(e) {
                Some(c) => Some(c + ";"@),
                None => None,
            },
            Stmt::Break(_) => Some("break;"@),
            Stmt::Continue(_) => Some("continue;"@),
            Stmt::Return { value, .. } => match value {
                None => Some("return;"@),
                Some(v) => match self.pure_code(v) {
                    Some(c) => Some(self.return_line(c)),
                    None => None,
                },
            },
            Stmt::VarDef { pattern, value, .. } => match (pattern, value) {
                (Pattern::Ident(name, _), Some(v)) => match self.pure_code(v) {
                    Some(c) => Some("lucid_var_"@ + name@ + " = "@ + c + ";"@),
                    None => None,
                },
                _ => None,
            },
            Stmt::AugAssign { target, op, value, .. } => match target {
                Expr::Ident { name, .. } => match self.pure_code(value) {
                    Some(c) => Some(self.aug_assign_line(name@, op, value, c)),
                    None => None,
                },
                _ => None,
            },
            Stmt::Assignment { target, value, .. } => match target {
                Expr::Ident { name, .. } => match self.pure_code(value) {
                    Some(c) => Some(self.assign_line(name@, value, c)),
                    None => None,
                },
                Expr::Attribute { value: obj, attr, .. } => match (self.pure_code(*obj), self.pure_code(value)) {
                    (Some(o), Some(c)) => Some(o + "->"@ + attr@ + " = "@ + c + ";"@),
                    _ => None,
                },
                _ => None,
            },
            _ => None,
        }
    }

    /// The C text of a statement at indentation `level`, where it is
    /// determined by the statement alone: a simple statement is its one line
    /// (see `simple_stmt_line`); `if` and `while` with a pure condition, and
    /// `for` over `range(...)` with pure arguments, are their header line,
    /// their blocks one level deeper, and the closing brace. `None` for any
    /// other statement.
    #[verifier::opaque]
    pub closed spec fn stmt_text(&self, s: Stmt, level: nat) -> Option<Seq<char>>
        decreases s,
    {
        match s {
            Stmt::If { condition, then_branch, elif_branches, else_branch, .. } => if level >= usize::MAX {
                None
            } else {
                let cond = self.pure_code(condition);
                let then_text = self.block_text(then_branch@, level + 1);
                let elif_text = self.elifs_text(elif_branches@, level);
                let else_text = match else_branch {
                    Some(b) => match self.block_text(b@, level + 1) {
                        Some(t) => Some(c_line(level, "} else {"@) + t),
                        None => None,
                    },
                    None => Some(Seq::<char>::empty()),
                };
                match (cond, then_text, elif_text, else_text) {
                    (Some(c), Some(tt), Some(et), Some(xt)) => Some(
                        c_line(level, "if (lucid_bool_val("@ + c + ")) {"@) + tt + et + xt + c_line(level, "}"@),
                    ),
                    _ => None,
                }
            },
            Stmt::While { condition, body, .. } => if level >= usize::MAX {
                None
            } else {
                match (self.pure_code(condition), self.block_text(body@, level + 1)) {
                    (Some(c), Some(bt)) => Some(
                        c_line(level, "while (lucid_bool_val("@ + c + ")) {"@) + bt + c_line(level, "}"@),
                    ),
                    _ => None,
                }
            },
            Stmt::For { target, iterable, body, .. } => if level >= usize::MAX {
                None
            } else {
                match iterable {
                    Expr::Call { func, args, .. } => match *func {
                        Expr::Ident { name, .. } => if name@ == "range"@ {
                            match (self.range_code(args@), self.block_text(body@, level + 1)) {
                                (Some((a, b, c)), Some(bt)) => Some(
                                    c_line(level, for_range_header(loop_var_text(target), a, b, c)) + bt + c_line(
                                        level,
                                        "}"@,
                                    ),
                                ),
                                _ => None,
                            }
                        } else {
                            None
                        },
                        _ => None,
                    },
                    _ => None,
                }
            },
            _ => match self.simple_stmt_line(s) {
                Some(l) => Some(c_line(level, l)),
                None => None,
            },
        }
    }

    /// The C text of a sequence of statements at `level`: their texts in
    /// order, when each has one.
    pub closed spec fn block_text(&self, ss: Seq<Stmt>, level: nat) -> Option<Seq<char>>
        decreases ss,
    {
        if ss.len() == 0 {
            Some(Seq::empty())
        } else {
            match (self.block_text(ss.drop_last(), level), self.stmt_text(ss.last(), level)) {
                (Some(a), Some(b)) => Some(a + b),
                _ => None,
            }
        }
    }

    /// The C text of `elif` branches at `level`: for each, its header line
    /// and its block one level deeper.
    pub closed spec fn elifs_text(&self, elifs: Seq<(Expr, Vec<Stmt>)>, level: nat) -> Option<Seq<char>>
        decreases elifs,
    {
        if elifs.len() == 0 {
            Some(Seq::empty())
        } else {
            match (
                self.elifs_text(elifs.drop_last(), level),
                self.pure_code(elifs.last().0),
                self.block_text(elifs.last().1@, level + 1),
            ) {
                (Some(a), Some(c), Some(bt)) => Some(
                    a + c_line(level, "} else if (lucid_bool_val("@ + c + ")) {"@) + bt,
                ),
                _ => None,
            }
        }
    }

    proof fn lemma_simple_line_knowledge(&self, other: Self, s: Stmt)
        requires
            self.same_knowledge(other),
        ensures
            self.simple_stmt_line(s) == other.simple_stmt_line(s),
    {
        match s {
            Stmt::Expr(e) => self.lemma_pure_code_knowledge(other, e),
            Stmt::Return { value, .. } => match value {
                Some(v) => self.lemma_pure_code_knowledge(other, v),
                None => {},
            },
            Stmt::VarDef { value, .. } => match value {
                Some(v) => self.lemma_pure_code_knowledge(other, v),
                None => {},
            },
            Stmt::AugAssign { value, .. } => self.lemma_pure_code_knowledge(other, value),
            Stmt::Assignment { target, value, .. } => {
                self.lemma_pure_code_knowledge(other, value);
                match target {
                    Expr::Attribute { value: obj, .. } => self.lemma_pure_code_knowledge(other, *obj),
                    _ => {},
                }
            },
            _ => {},
        }
    }

    /// Generators that know the same things give the same statement texts.
    proof fn lemma_stmt_text_knowledge(&self, other: Self, s: Stmt, level: nat)
        requires
            self.same_knowledge(other),
        ensures
            self.stmt_text(s, level) == other.stmt_text(s, level),
        decreases s,
    {
        reveal(CCodeGenerator::stmt_text);
        match s {
            Stmt::If { condition, then_branch, elif_branches, else_branch, .. } => {
                self.lemma_pure_code_knowledge(other, condition);
                self.lemma_block_text_knowledge(other, then_branch@, level + 1);
                self.lemma_elifs_text_knowledge(other, elif_branches@, level);
                match else_branch {
                    Some(b) => self.lemma_block_text_knowledge(other, b@, level + 1),
                    None => {},
                }
            },
            Stmt::While { condition, body, .. } => {
                self.lemma_pure_code_knowledge(other, condition);
                self.lemma_block_text_knowledge(other, body@, level + 1);
            },
            Stmt::For { iterable, body, .. } => {
                match iterable {
                    Expr::Call { args, .. } => self.lemma_range_code_knowledge(other, args@),
                    _ => {},
                }
                self.lemma_block_text_knowledge(other, body@, level + 1);
            },
            _ => self.lemma_simple_line_knowledge(other, s),
        }
    }

    proof fn lemma_block_text_knowledge(&self, other: Self, ss: Seq<Stmt>, level: nat)
        requires
            self.same_knowledge(other),
        ensures
            self.block_text(ss, level) == other.block_text(ss, level),
        decreases ss,
    {
        if ss.len() > 0 {
            self.lemma_block_text_knowledge(other, ss.drop_last(), level);
            self.lemma_stmt_text_knowledge(other, ss.last(), level);
            reveal(CCodeGenerator::stmt_text);
        }
    }

    proof fn lemma_elifs_text_knowledge(&self, other: Self, elifs: Seq<(Expr, Vec<Stmt>)>, level: nat)
        requires
            self.same_knowledge(other),
        ensures
            self.elifs_text(elifs, level) == other.elifs_text(elifs, level),
        decreases elifs,
    {
        reveal(CCodeGenerator::stmt_text);
        if elifs.len() > 0 {
            self.lemma_elifs_text_knowledge(other, elifs.drop_last(), level);
            self.lemma_pure_code_knowledge(other, elifs.last().0);
            self.lemma_block_text_knowledge(other, elifs.last().1@, level + 1);
        }
    }

    /// Emits an augmented assignment `target op= value` (see `stmt_text`
    /// for one to a variable).
    #[verifier::loop_isolation(false)]
    fn emit_aug_assign(&mut self, stmt: &Stmt)
        requires
            old(self).wf(),
            stmt_ok(*stmt),
            *stmt is AugAssign,
        ensures
            final(self).wf(),
            final(self).extends(*old(self)),
            old(self).stmt_text(*stmt, old(self).indent_level()) matches Some(t) ==> final(self).output()
                == old(self).output() + t,
    {
        let ghost start = *self;
        proof {
            Self::lemma_extends_refl(*self);
            self.lemma_stmt_text_simple(*stmt, self.indent_level());
        }
        match stmt {
            Stmt::AugAssign { target, op, value, .. } => {
                let op_str = match op {
                    BinaryOp::Add => "+",
                    BinaryOp::Sub => "-",
                    BinaryOp::Mul => "*",
                    BinaryOp::Div => "/",
                    _ => "+",
                };
                match target {
                    Expr::Ident { name, .. } => {
                        let c = self.emit_expr(value);
                        proof {
                            self.lemma_pure_code_knowledge(start, *value);
                        }
                        let n = name.as_str();
                        let l = if self.expr_is_val(value) {
                            let var_ty = match self.known_var_type_text(n) {
                                Some(t) => t.clone(),
                                None => String::from_str("double"),
                            };
                            let mut l = cat5("lucid_var_", n, " ", op_str, "= ");
                            if str_equal(var_ty.as_str(), "int64_t") {
                                l.append("lucid_int_val(");
                            } else {
                                l.append("lucid_num(");
                            }
                            l.append(c.as_str());
                            l.append(");");
                            l
                        } else {
                            let mut l = cat5("lucid_var_", n, " ", op_str, "= ");
                            l.append(c.as_str());
                            l.append(";");
                            l
                        };
                        self.line(l.as_str());
                    },
                    Expr::Index { value: arr, index, .. } => {
                        proof {
                            assert(appends_ok(*target));
                        }
                        let idx = self.emit_expr(index);
                        let val = self.emit_expr(value);
                        match &**arr {
                            Expr::Index { value: inner_arr, index: inner_idx, .. } => {
                                proof {
                                    assert(appends_ok(**arr));
                                }
                                let ic = self.emit_expr(inner_arr);
                                let iic = self.emit_expr(inner_idx);
                                let mut l = cat5("{ LucidList* _sub = lucid_as_list(lucid_get_index(lucid_wrap(", ic.as_str(), "), lucid_int_val(", iic.as_str(), "))); int64_t _i = lucid_int_val(");
                                l.append(idx.as_str());
                                l.append("); LucidVal _cur = lucid_list_get(_sub, _i); lucid_list_set(_sub, _i, lucid_float(lucid_as_float(_cur) ");
                                l.append(op_str);
                                l.append(" lucid_as_float(lucid_wrap(");
                                l.append(val.as_str());
                                l.append(")))); }");
                                self.line(l.as_str());
                            },
                            _ => {
                                let ac = self.emit_expr(arr);
                                let mut l = cat5("{ LucidList* _l = lucid_as_list(lucid_wrap(", ac.as_str(), ")); int64_t _i = lucid_int_val(", idx.as_str(), "); LucidVal _cur = lucid_list_get(_l, _i); lucid_list_set(_l, _i, lucid_float(lucid_as_float(_cur) ");
                                l.append(op_str);
                                l.append(" lucid_as_float(lucid_wrap(");
                                l.append(val.as_str());
                                l.append(")))); }");
                                self.line(l.as_str());
                            },
                        }
                    },
                    _ => {},
                }
            },
            _ => {},
        }
    }

    /// Emits an `if` statement: its header, its blocks and branches, and
    /// the closing brace (see `stmt_text`).
    #[verifier::rlimit(40)]
    #[verifier::spinoff_prover]
    fn emit_if(&mut self, stmt: &Stmt)
        requires
            old(self).wf(),
            stmt_ok(*stmt),
            *stmt is If,
        ensures
            final(self).wf(),
            final(self).extends(*old(self)),
            old(self).stmt_text(*stmt, old(self).indent_level()) matches Some(t) ==> final(self).output()
                == old(self).output() + t,
        decreases stmt, 0nat,
    {
        let ghost start = *self;
        let ghost lvl = start.indent_level();
        match stmt {
            Stmt::If { condition, then_branch, elif_branches, else_branch, .. } => {
                let ghost whole = start.stmt_text(*stmt, lvl) is Some;
                let ghost else_text = match else_branch {
                    Some(b) => match start.block_text(b@, lvl + 1) {
                        Some(t) => Some(c_line(lvl, "} else {"@) + t),
                        None => None,
                    },
                    None => Some(Seq::<char>::empty()),
                };
                proof {
                    if whole {
                        assert(lvl < usize::MAX && start.pure_code(*condition) is Some && start.block_text(
                            then_branch@,
                            lvl + 1,
                        ) is Some && start.elifs_text(elif_branches@, lvl) is Some && else_text is Some
                            && start.stmt_text(*stmt, lvl) == Some(
                            c_line(lvl, "if (lucid_bool_val("@ + start.pure_code(*condition)->Some_0 + ")) {"@)
                                + start.block_text(then_branch@, lvl + 1)->Some_0 + start.elifs_text(
                                elif_branches@,
                                lvl,
                            )->Some_0 + else_text->Some_0 + c_line(lvl, "}"@),
                        )) by {
                            reveal(CCodeGenerator::stmt_text);
                        }
                    }
                }
                let c = self.emit_expr(condition);
                let l = cat3("if (lucid_bool_val(", c.as_str(), ")) {");
                self.line(l.as_str());
                let ghost s1 = *self;
                proof {
                    self.lemma_block_text_knowledge(start, then_branch@, lvl + 1);
                }
                self.emit_block(then_branch);
                let ghost s2 = *self;
                proof {
                    Self::lemma_extends_trans(start, s1, s2);
                    self.lemma_elifs_text_knowledge(start, elif_branches@, lvl);
                    assert(decreases_to!(stmt => elif_branches));
                    if whole {
                        assert(s2.output() == start.output() + c_line(lvl, l@) + start.block_text(then_branch@, lvl + 1)->Some_0);
                    }
                }
                self.emit_elifs(elif_branches);
                let ghost s3 = *self;
                proof {
                    Self::lemma_extends_trans(start, s2, s3);
                }
                match else_branch {
                    Some(b) => {
                        self.line("} else {");
                        let ghost s4 = *self;
                        proof {
                            Self::lemma_extends_trans(start, s3, s4);
                            self.lemma_block_text_knowledge(start, b@, lvl + 1);
                        }
                        self.emit_block(b);
                        proof {
                            Self::lemma_extends_trans(start, s4, *self);
                            if whole {
                                assert(self.output() =~= s3.output() + else_text->Some_0);
                            }
                        }
                    },
                    None => {
                        proof {
                            assert(s3.output() + Seq::<char>::empty() =~= s3.output());
                        }
                    },
                }
                let ghost s5 = *self;
                self.line("}");
                proof {
                    Self::lemma_extends_trans(start, s5, *self);
                    if whole {
                        assert(self.output() =~= start.output() + (c_line(lvl, l@) + start.block_text(then_branch@, lvl + 1)->Some_0
                            + start.elifs_text(elif_branches@, lvl)->Some_0 + else_text->Some_0 + c_line(lvl, "}"@)));
                    }
                }
            },
            _ => {
                proof {
                    Self::lemma_extends_refl(*self);
                }
            },
        }
    }

    /// Emits `elif` branches: for each, its header line and its block one
    /// level deeper (see `elifs_text`).
    fn emit_elifs(&mut self, elifs: &Vec<(Expr, Vec<Stmt>)>)
        requires
            old(self).wf(),
            elifs_ok(elifs@),
        ensures
            final(self).wf(),
            final(self).extends(*old(self)),
            old(self).indent_level() < usize::MAX ==> (old(self).elifs_text(elifs@, old(self).indent_level()) matches Some(
                t,
            ) ==> final(self).output() == old(self).output() + t),
        decreases elifs, 2nat,
    {
        let ghost start = *self;
        let ghost lvl = start.indent_level();
        let ghost whole = lvl < usize::MAX && start.elifs_text(elifs@, lvl) is Some;
        proof {
            Self::lemma_extends_refl(*self);
            assert(elifs@.take(0) =~= Seq::<(Expr, Vec<Stmt>)>::empty());
            assert(start.output() + Seq::<char>::empty() =~= start.output());
        }
        let mut i: usize = 0;
        while i < elifs.len()
            invariant
                self.wf(),
                self.extends(start),
                elifs_ok(elifs@),
                i <= elifs@.len(),
                lvl == start.indent_level(),
                whole == (lvl < usize::MAX && start.elifs_text(elifs@, lvl) is Some),
                whole ==> (start.elifs_text(elifs@.take(i as int), lvl) matches Some(et) && self.output()
                    == start.output() + et),
            decreases elifs.len() - i,
        {
            proof {
                lemma_elifs_ok(elifs@, i as int);
                assert(decreases_to!(elifs => elifs[i as int]));
                assert(decreases_to!(elifs[i as int] => elifs[i as int].1));
            }
            let ghost s0 = *self;
            proof {
                if whole {
                    start.lemma_elifs_text_prefix(elifs@, i + 1, lvl);
                    assert(elifs@.take(i + 1).drop_last() =~= elifs@.take(i as int));
                }
                self.lemma_pure_code_knowledge(start, elifs@[i as int].0);
            }
            let ec = self.emit_expr(&elifs[i].0);
            let l = cat3("} else if (lucid_bool_val(", ec.as_str(), ")) {");
            self.line(l.as_str());
            let ghost s1 = *self;
            proof {
                Self::lemma_extends_trans(start, s0, s1);
                self.lemma_block_text_knowledge(start, elifs@[i as int].1@, lvl + 1);
            }
            self.emit_block(&elifs[i].1);
            proof {
                Self::lemma_extends_trans(start, s1, *self);
                if whole {
                    let pre = start.elifs_text(elifs@.take(i as int), lvl)->Some_0;
                    let ecode = start.pure_code(elifs@[i as int].0)->Some_0;
                    let bt = start.block_text(elifs@[i as int].1@, lvl + 1)->Some_0;
                    assert(start.elifs_text(elifs@.take(i + 1), lvl) == Some(pre + c_line(
                        lvl,
                        "} else if (lucid_bool_val("@ + ecode + ")) {"@,
                    ) + bt)) by {
                        reveal(CCodeGenerator::stmt_text);
                        assert(elifs@.take(i + 1).last() == elifs@[i as int]);
                    }
                    assert(self.output() =~= start.output() + (pre + c_line(
                        lvl,
                        "} else if (lucid_bool_val("@ + ecode + ")) {"@,
                    ) + bt));
                }
            }
            i = i + 1;
        }
        proof {
            if whole {
                assert(elifs@.take(elifs@.len() as int) =~= elifs@);
            }
        }
    }

    /// Emits the C code of a statement at the current indentation. The
    /// output only grows; indentation and knowledge are as before. A simple
    /// statement becomes exactly its one line (see `simple_stmt_line`); an
    /// `if` (with its `elif` and `else` branches) or a `while` over pure
    /// conditions, whose blocks have text, becomes exactly its header line,
    /// its blocks one level deeper and its closing brace (see `stmt_text`).
    #[verifier::loop_isolation(false)]
    #[verifier::spinoff_prover]
    #[verifier::rlimit(100)]
    fn emit_stmt(&mut self, stmt: &Stmt)
        requires
            old(self).wf(),
            stmt_ok(*stmt),
        ensures
            final(self).wf(),
            final(self).extends(*old(self)),
            old(self).stmt_text(*stmt, old(self).indent_level()) matches Some(t) ==> final(self).output()
                == old(self).output() + t,
        decreases stmt, 1nat,
    {
        let ghost start = *self;
        proof {
            Self::lemma_extends_refl(*self);
        }
        match stmt {
            Stmt::VarDef { pattern, value, .. } => {
                proof {
                    self.lemma_stmt_text_simple(*stmt, self.indent_level());
                }
                match pattern {
                    Pattern::Ident(name, _) => {
                        match value {
                            Some(v) => {
                                let c = self.emit_expr(v);
                                let l = cat5("lucid_var_", name.as_str(), " = ", c.as_str(), ";");
                                self.line(l.as_str());
                            },
                            None => {},
                        }
                    },
                    _ => {},
                }
            },
            Stmt::Assignment { target, value, .. } => {
                proof {
                    self.lemma_stmt_text_simple(*stmt, self.indent_level());
                }
                match target {
                    Expr::Ident { name, .. } => {
                        let c = self.emit_expr(value);
                        proof {
                            self.lemma_pure_code_knowledge(start, *value);
                        }
                        let var_ty = match self.known_var_type_text(name.as_str()) {
                            Some(t) => t.clone(),
                            None => String::from_str("LucidVal"),
                        };
                        let is_val = self.expr_is_val(value);
                        let n = name.as_str();
                        let cs = c.as_str();
                        let l = if str_equal(var_ty.as_str(), "LucidVal") {
                            cat5("lucid_var_", n, " = lucid_wrap(", cs, ");")
                        } else if str_equal(var_ty.as_str(), "int64_t") && is_val {
                            cat5("lucid_var_", n, " = lucid_int_val(", cs, ");")
                        } else if str_equal(var_ty.as_str(), "double") && is_val {
                            cat5("lucid_var_", n, " = lucid_num(", cs, ");")
                        } else if str_equal(var_ty.as_str(), "const char*") && is_val {
                            cat5("lucid_var_", n, " = lucid_as_str(", cs, ");")
                        } else if str_equal(var_ty.as_str(), "LucidList*") && is_val {
                            cat5("lucid_var_", n, " = lucid_as_list(", cs, ");")
                        } else {
                            cat5("lucid_var_", n, " = ", cs, ";")
                        };
                        self.line(l.as_str());
                    },
                    Expr::Index { value: arr, index, .. } => {
                        proof {
                            assert(appends_ok(*target));
                        }
                        let idx = self.emit_expr(index);
                        let val = self.emit_expr(value);
                        match &**arr {
                            Expr::Index { value: inner_arr, index: inner_idx, .. } => {
                                proof {
                                    assert(appends_ok(**arr));
                                }
                                let ic = self.emit_expr(inner_arr);
                                let iic = self.emit_expr(inner_idx);
                                let mut l = cat5("lucid_list_set(lucid_as_list(lucid_get_index(lucid_wrap(", ic.as_str(), "), lucid_int_val(", iic.as_str(), "))), lucid_int_val(");
                                l.append(idx.as_str());
                                l.append("), lucid_wrap(");
                                l.append(val.as_str());
                                l.append("));");
                                self.line(l.as_str());
                            },
                            _ => {
                                let ac = self.emit_expr(arr);
                                let mut l = cat5("lucid_list_set(lucid_as_list(lucid_wrap(", ac.as_str(), ")), lucid_int_val(", idx.as_str(), "), lucid_wrap(");
                                l.append(val.as_str());
                                l.append("));");
                                self.line(l.as_str());
                            },
                        }
                    },
                    Expr::Attribute { value: obj, attr, .. } => {
                        proof {
                            assert(appends_ok(*target));
                        }
                        let oc = self.emit_expr(obj);
                        proof {
                            self.lemma_pure_code_knowledge(start, *value);
                        }
                        let vc = self.emit_expr(value);
                        let mut l = cat5(oc.as_str(), "->", attr.as_str(), " = ", vc.as_str());
                        l.append(";");
                        self.line(l.as_str());
                    },
                    _ => {},
                }
            },
            Stmt::AugAssign { .. } => {
                self.emit_aug_assign(stmt);
            },
            Stmt::If { .. } => {
                self.emit_if(stmt);
            },
            Stmt::While { condition, body, .. } => {
                proof {
                    self.lemma_stmt_text_while(*stmt, self.indent_level());
                }
                let ghost lvl = start.indent_level();
                let c = self.emit_expr(condition);
                let l = cat3("while (lucid_bool_val(", c.as_str(), ")) {");
                self.line(l.as_str());
                proof {
                    self.lemma_block_text_knowledge(start, body@, lvl + 1);
                }
                self.emit_block(body);
                self.line("}");
            },
            Stmt::For { target, iterable, body, .. } => {
                proof {
                    self.lemma_stmt_text_for(*stmt, self.indent_level());
                }
                let ghost lvl = start.indent_level();
                let var_name = match target {
                    Pattern::Ident(name, _) => name.clone(),
                    _ => String::from_str("_"),
                };
                let v = var_name.as_str();
                let mut done = false;
                match iterable {
                    Expr::Call { func, args, .. } => {
                        match &**func {
                            Expr::Ident { name, .. } => {
                                if str_equal(name.as_str(), "range") {
                                    proof {
                                        assert(appends_ok(*iterable));
                                    }
                                    let (st, sp, step) = self.range_parts(args);
                                    let mut l = cat5("for (lucid_var_", v, " = ", st.as_str(), "; lucid_var_");
                                    l.append(v);
                                    l.append(" < ");
                                    l.append(sp.as_str());
                                    l.append("; lucid_var_");
                                    l.append(v);
                                    l.append(" += ");
                                    l.append(step.as_str());
                                    l.append(") {");
                                    proof {
                                        assert(l@ =~= for_range_header(var_name@, st@, sp@, step@));
                                    }
                                    self.line(l.as_str());
                                    proof {
                                        self.lemma_block_text_knowledge(start, body@, lvl + 1);
                                    }
                                    self.emit_block(body);
                                    self.line("}");
                                    done = true;
                                }
                            },
                            _ => {},
                        }
                    },
                    _ => {},
                }
                if !done {
                    let ic = self.emit_expr(iterable);
                    let tmp_idx = self.new_temp();
                    let tmp_list = self.new_temp();
                    let ti = tmp_idx.as_str();
                    let tl = tmp_list.as_str();
                    let mut l1 = cat5("LucidList* ", tl, " = lucid_as_list(lucid_wrap(", ic.as_str(), "));");
                    self.line(l1.as_str());
                    let mut l2 = cat5("for (int64_t ", ti, " = 0; ", tl, " && ");
                    l2.append(ti);
                    l2.append(" < ");
                    l2.append(tl);
                    l2.append("->len; ");
                    l2.append(ti);
                    l2.append("++) {");
                    self.line(l2.as_str());
                    self.indent_in();
                    let mut l3 = cat5("lucid_var_", v, " = ", tl, "->items[");
                    l3.append(ti);
                    l3.append("];");
                    self.line(l3.as_str());
                    self.emit_stmts(body);
                    self.indent_out();
                    self.line("}");
                }
            },
            Stmt::Return { value, .. } => {
                proof {
                    self.lemma_stmt_text_simple(*stmt, self.indent_level());
                }
                match value {
                    Some(val) => {
                        let c = self.emit_expr(val);
                        let cs = c.as_str();
                        let l = match &self.current_fn_ret_type {
                            Some(rt) => {
                                let r = rt.as_str();
                                if str_equal(r, "int64_t") {
                                    cat3("return lucid_as_int(lucid_wrap(", cs, "));")
                                } else if str_equal(r, "double") {
                                    cat3("return lucid_as_float(lucid_wrap(", cs, "));")
                                } else if str_equal(r, "bool") {
                                    cat3("return lucid_as_bool(lucid_wrap(", cs, "));")
                                } else if str_equal(r, "const char*") {
                                    cat3("return lucid_as_str(lucid_wrap(", cs, "));")
                                } else if str_equal(r, "LucidList*") {
                                    cat3("return lucid_as_list(lucid_wrap(", cs, "));")
                                } else if str_equal(r, "void") {
                                    String::from_str("return;")
                                } else {
                                    cat5("return (", r, ")lucid_as_ptr(lucid_wrap(", cs, "));")
                                }
                            },
                            None => cat3("return ", cs, ";"),
                        };
                        self.line(l.as_str());
                    },
                    None => {
                        self.line("return;");
                    },
                }
            },
            Stmt::Break(_) => {
                proof {
                    self.lemma_stmt_text_simple(*stmt, self.indent_level());
                }
                self.line("break;");
            },
            Stmt::Continue(_) => {
                proof {
                    self.lemma_stmt_text_simple(*stmt, self.indent_level());
                }
                self.line("continue;");
            },
            Stmt::Expr(e) => {
                proof {
                    self.lemma_stmt_text_simple(*stmt, self.indent_level());
                }
                let c = self.emit_expr(e);
                let l = cat2(c.as_str(), ";");
                self.line(l.as_str());
            },
            _ => {
                proof {
                    self.lemma_stmt_text_simple(*stmt, self.indent_level());
                }
            },
        }
    }

    /// Emits a block one level deeper than the current indentation.
    fn emit_block(&mut self, ss: &Vec<Stmt>)
        requires
            old(self).wf(),
            block_ok(ss@),
        ensures
            final(self).wf(),
            final(self).extends(*old(self)),
            old(self).indent_level() < usize::MAX ==> (old(self).block_text(ss@, old(self).indent_level() + 1) matches Some(
                t,
            ) ==> final(self).output() == old(self).output() + t),
        decreases ss, 1nat,
    {
        let ghost start = *self;
        self.indent_in();
        proof {
            self.lemma_block_text_knowledge(start, ss@, self.indent_level());
        }
        self.emit_stmts(ss);
        self.indent_out();
    }

    /// Emits statements at the current indentation.
    fn emit_stmts(&mut self, ss: &Vec<Stmt>)
        requires
            old(self).wf(),
            block_ok(ss@),
        ensures
            final(self).wf(),
            final(self).extends(*old(self)),
            old(self).block_text(ss@, old(self).indent_level()) matches Some(t) ==> final(self).output()
                == old(self).output() + t,
        decreases ss, 0nat,
    {
        let ghost start = *self;
        let ghost lvl = self.indent_level();
        let ghost whole = start.block_text(ss@, lvl) is Some;
        proof {
            Self::lemma_extends_refl(*self);
            assert(ss@.take(0) =~= Seq::<Stmt>::empty());
            assert(start.output() + Seq::<char>::empty() =~= start.output());
        }
        let mut i: usize = 0;
        while i < ss.len()
            invariant
                self.wf(),
                self.extends(start),
                block_ok(ss@),
                i <= ss@.len(),
                lvl == start.indent_level(),
                whole == (start.block_text(ss@, lvl) is Some),
                whole ==> (start.block_text(ss@.take(i as int), lvl) matches Some(t) && self.output()
                    == start.output() + t),
            decreases ss.len() - i,
        {
            proof {
                lemma_block_ok(ss@, i as int);
                assert(decreases_to!(ss => ss[i as int]));
            }
            let ghost s0 = *self;
            proof {
                s0.lemma_stmt_text_knowledge(start, ss@[i as int], lvl);
                if whole {
                    start.lemma_block_text_prefix(ss@, i + 1, lvl);
                    assert(ss@.take(i + 1).drop_last() =~= ss@.take(i as int));
                }
            }
            self.emit_stmt(&ss[i]);
            proof {
                Self::lemma_extends_trans(start, s0, *self);
                if whole {
                    let pre = start.block_text(ss@.take(i as int), lvl)->Some_0;
                    let st = start.stmt_text(ss@[i as int], lvl)->Some_0;
                    assert(start.block_text(ss@.take(i + 1), lvl) == Some(pre + st)) by {
                        reveal(CCodeGenerator::stmt_text);
                        assert(ss@.take(i + 1).last() == ss@[i as int]);
                    }
                    assert(self.output() =~= start.output() + (pre + st));
                }
            }
            i = i + 1;
        }
        proof {
            if whole {
                assert(ss@.take(ss@.len() as int) =~= ss@);
            }
        }
    }

    /// A statement other than `if` and `while` has as text its one line.
    proof fn lemma_stmt_text_simple(&self, s: Stmt, level: nat)
        requires
            !(s is If),
            !(s is While),
            !(s is For),
        ensures
            self.stmt_text(s, level) == (match self.simple_stmt_line(s) {
                Some(l) => Some(c_line(level, l)),
                None => None,
            }),
    {
        reveal(CCodeGenerator::stmt_text);
    }

    /// The text of a `while` statement: its header, its body one level
    /// deeper, and the closing brace.
    proof fn lemma_stmt_text_while(&self, s: Stmt, level: nat)
        requires
            s is While,
        ensures
            self.stmt_text(s, level) == (if level >= usize::MAX {
                None
            } else {
                match (self.pure_code(s->While_condition), self.block_text(s->While_body@, level + 1)) {
                    (Some(c), Some(bt)) => Some(
                        c_line(level, "while (lucid_bool_val("@ + c + ")) {"@) + bt + c_line(level, "}"@),
                    ),
                    _ => None,
                }
            }),
    {
        reveal(CCodeGenerator::stmt_text);
    }

    /// The text of a `for` statement over `range(...)` (see `stmt_text`).
    proof fn lemma_stmt_text_for(&self, s: Stmt, level: nat)
        requires
            s is For,
        ensures
            self.stmt_text(s, level) == (if level >= usize::MAX {
                None
            } else {
                match s->For_iterable {
                    Expr::Call { func, args, .. } => match *func {
                        Expr::Ident { name, .. } => if name@ == "range"@ {
                            match (self.range_code(args@), self.block_text(s->For_body@, level + 1)) {
                                (Some((a, b, c)), Some(bt)) => Some(
                                    c_line(level, for_range_header(loop_var_text(s->For_target), a, b, c)) + bt
                                        + c_line(level, "}"@),
                                ),
                                _ => None,
                            }
                        } else {
                            None
                        },
                        _ => None,
                    },
                    _ => None,
                }
            }),
    {
        reveal(CCodeGenerator::stmt_text);
    }

    /// `elif` branches that have a text have one for each prefix, and the
    /// last branch of that prefix has a condition and a block with texts.
    proof fn lemma_elifs_text_prefix(&self, elifs: Seq<(Expr, Vec<Stmt>)>, i: int, level: nat)
        requires
            self.elifs_text(elifs, level) is Some,
            0 <= i <= elifs.len(),
        ensures
            self.elifs_text(elifs.take(i), level) is Some,
            i > 0 ==> self.pure_code(elifs[i - 1].0) is Some,
            i > 0 ==> self.block_text(elifs[i - 1].1@, level + 1) is Some,
        decreases elifs.len() - i,
    {
        reveal(CCodeGenerator::stmt_text);
        if i < elifs.len() {
            self.lemma_elifs_text_prefix(elifs, i + 1, level);
            assert(elifs.take(i + 1).drop_last() =~= elifs.take(i));
        } else {
            assert(elifs.take(i) =~= elifs);
        }
        if i > 0 {
            assert(elifs.take(i).last() == elifs[i - 1]);
        }
    }

    /// A sequence of statements that has a text has one for each prefix,
    /// and the last statement of that prefix has a text too.
    proof fn lemma_block_text_prefix(&self, ss: Seq<Stmt>, i: int, level: nat)
        requires
            self.block_text(ss, level) is Some,
            0 <= i <= ss.len(),
        ensures
            self.block_text(ss.take(i), level) is Some,
            i > 0 ==> self.stmt_text(ss[i - 1], level) is Some,
        decreases ss.len() - i,
    {
        reveal(CCodeGenerator::stmt_text);
        if i < ss.len() {
            self.lemma_block_text_prefix(ss, i + 1, level);
            assert(ss.take(i + 1).drop_last() =~= ss.take(i));
        } else {
            assert(ss.take(i) =~= ss);
        }
        if i > 0 {
            assert(ss.take(i).last() == ss[i - 1]);
        }
    }
}

/// The C initial value for a local of the given type.
pub open spec fn init_value(ty: Seq<char>) -> Seq<char> {
    if ty == "int64_t"@ {
        "0"@
    } else if ty == "double"@ {
        "0.0"@
    } else if ty == "bool"@ {
        "false"@
    } else if ty == "const char*"@ {
        "\"\""@
    } else if ty == "LucidList*"@ {
        "NULL"@
    } else if ty == "LucidVal"@ {
        "lucid_none()"@
    } else {
        "NULL"@
    }
}

fn init_value_text(ty: &str) -> (r: &'static str)
    ensures
        r@ == init_value(ty@),
{
    if str_equal(ty, "int64_t") {
        "0"
    } else if str_equal(ty, "double") {
        "0.0"
    } else if str_equal(ty, "bool") {
        "false"
    } else if str_equal(ty, "const char*") {
        "\"\""
    } else if str_equal(ty, "LucidList*") {
        "NULL"
    } else if str_equal(ty, "LucidVal") {
        "lucid_none()"
    } else {
        "NULL"
    }
}

fn param_named(params: &Vec<Param>, name: &str) -> (r: bool)
    ensures
        r == exists|i: int| 0 <= i < params@.len() && #[trigger] params@[i].name@ == name@,
{
    let mut i: usize = 0;
    while i < params.len()
        invariant
            i <= params@.len(),
            forall|j: int| 0 <= j < i ==> #[trigger] params@[j].name@ != name@,
        decreases params.len() - i,
    {
        if str_equal(params[i].name.as_str(), name) {
            return true;
        }
        i = i + 1;
    }
    false
}

impl CCodeGenerator {
    /// Emits the struct, the constructor and the methods of a class.
    fn emit_class_def(&mut self, name: &str, body: &Vec<ClassMember>)
        requires
            old(self).wf(),
            members_ok(body@),
        ensures
            final(self).wf(),
            final(self).extends(*old(self)),
            (old(self).output() + c_line(old(self).indent_level(), "struct "@ + name@ + " {"@)).is_prefix_of(
                final(self).output(),
            ),
            c_line(old(self).indent_level(), Seq::<char>::empty()).is_suffix_of(final(self).output()),
    {
        let ghost start = *self;
        proof {
            Self::lemma_extends_refl(*self);
        }
        let l = cat3("struct ", name, " {");
        self.line(l.as_str());
        let ghost s_a = *self;
        proof {
            assert(s_a.output() =~= start.output() + c_line(start.indent_level(), "struct "@ + name@ + " {"@));
        }
        self.indent_in();
        let mut fields: Vec<(String, String)> = Vec::new();
        let mut i: usize = 0;
        let ghost inner = *self;
        proof {
            Self::lemma_extends_refl(*self);
        }
        while i < body.len()
            invariant
                self.wf(),
                self.extends(inner),
                i <= body@.len(),
            decreases body.len() - i,
        {
            match &body[i] {
                ClassMember::Field(f) => {
                    let ty = self.map_type_expr(Some(&f.type_annotation));
                    let l = cat5(ty.as_str(), " ", f.name.as_str(), ";", "");
                    let ghost s0 = *self;
                    self.line(l.as_str());
                    proof {
                        Self::lemma_extends_trans(inner, s0, *self);
                    }
                    fields.push((f.name.clone(), ty));
                },
                _ => {},
            }
            i = i + 1;
        }
        let ghost s_loop = *self;
        self.indent_out();
        self.line("};");
        proof {
            crate::text::lemma_prefix_trans(start.buffer@, s_a.buffer@, s_loop.buffer@);
            crate::text::lemma_prefix_trans(start.buffer@, s_loop.buffer@, self.buffer@);
        }
        let ghost s_c = *self;
        let mut params: Vec<String> = Vec::new();
        let mut j: usize = 0;
        while j < fields.len()
            invariant
                j <= fields@.len(),
            decreases fields.len() - j,
        {
            params.push(cat3(fields[j].1.as_str(), " ", fields[j].0.as_str()));
            j = j + 1;
        }
        let joined = join_comma_strings(&params);
        let mut l = cat5(name, "* ", name, "_new(", joined.as_str());
        l.append(") {");
        self.line(l.as_str());
        self.indent_in();
        let mut l = cat5(name, "* self = (", name, "*)malloc(sizeof(", name);
        l.append("));");
        self.line(l.as_str());
        let ghost inner2 = *self;
        proof {
            Self::lemma_extends_refl(*self);
        }
        let mut j: usize = 0;
        while j < fields.len()
            invariant
                self.wf(),
                self.extends(inner2),
                j <= fields@.len(),
            decreases fields.len() - j,
        {
            let l = cat5("self->", fields[j].0.as_str(), " = ", fields[j].0.as_str(), ";");
            let ghost s0 = *self;
            self.line(l.as_str());
            proof {
                Self::lemma_extends_trans(inner2, s0, *self);
            }
            j = j + 1;
        }
        self.line("return self;");
        let ghost s_d = *self;
        self.indent_out();
        self.line("}");
        let ghost mid = *self;
        proof {
            crate::text::lemma_prefix_trans(s_c.buffer@, inner2.buffer@, s_d.buffer@);
            crate::text::lemma_prefix_trans(s_c.buffer@, s_d.buffer@, mid.buffer@);
            crate::text::lemma_prefix_trans(start.buffer@, s_c.buffer@, mid.buffer@);
        }
        proof {
            Self::lemma_extends_refl(*self);
        }
        let mut i: usize = 0;
        while i < body.len()
            invariant
                self.wf(),
                self.extends(mid),
                members_ok(body@),
                i <= body@.len(),
            decreases body.len() - i,
        {
            match &body[i] {
                ClassMember::Method(method) => {
                    proof {
                        assert(body@[i as int] matches ClassMember::Method(m) ==> block_ok(m.body@));
                    }
                    let ghost s0 = *self;
                    let ret_ty = self.map_type_expr(method.return_type.as_ref());
                    let mut method_params: Vec<String> = Vec::new();
                    method_params.push(cat2(name, "* self"));
                    let mut k: usize = 1;
                    while k < method.params.len()
                        invariant
                            1 <= k,
                        decreases method.params.len() - k,
                    {
                        let ty = self.map_type_expr(method.params[k].type_annotation.as_ref());
                        method_params.push(cat3(ty.as_str(), " lucid_var_", method.params[k].name.as_str()));
                        k = k + 1;
                    }
                    let joined = join_comma_strings(&method_params);
                    let mut l = cat5(ret_ty.as_str(), " ", name, "_", method.name.as_str());
                    l.append("(");
                    l.append(joined.as_str());
                    l.append(") {");
                    self.line(l.as_str());
                    self.emit_block(&method.body);
                    self.line("}");
                    proof {
                        Self::lemma_extends_trans(mid, s0, *self);
                    }
                },
                _ => {},
            }
            i = i + 1;
        }
        let ghost before_last = self.output();
        self.line("");
        proof {
            crate::text::lemma_prefix_trans(start.buffer@, mid.buffer@, self.buffer@);
            crate::text::lemma_prefix_trans(s_a.buffer@, mid.buffer@, self.buffer@);
            let tail = c_line(start.indent_level(), Seq::<char>::empty());
            assert(""@ =~= Seq::<char>::empty()) by {
                reveal_strlit("");
            }
            assert(self.output() =~= before_last + tail);
            assert(tail =~= self.output().subrange(self.output().len() - tail.len(), self.output().len() as int));
        }
    }

    /// The header line of a function definition: its C return type, its
    /// name and its parameters.
    /// The prototype line of a function: its return type, name and
    /// parameters, ended by `;`.
    pub open spec fn function_prototype(f: FunctionDef) -> Seq<char> {
        c_type(f.return_type) + " lucid_fn_"@ + f.name@ + "("@ + param_list_text(f.params@) + ");"@
    }

    pub open spec fn function_header(f: FunctionDef) -> Seq<char> {
        c_type(f.return_type) + " lucid_fn_"@ + f.name@ + "("@ + param_list_text(f.params@) + ") {"@
    }

    /// Emits a function definition: its header line, a declaration of each
    /// local variable, its body one level deeper, and the closing brace
    /// followed by a blank line.
    fn emit_function(&mut self, f: &FunctionDef)
        requires
            old(self).wf(),
            block_ok(f.body@),
        ensures
            final(self).wf(),
            old(self).output().is_prefix_of(final(self).output()),
            final(self).indent_level() == old(self).indent_level(),
            (old(self).output() + c_line(old(self).indent_level(), CCodeGenerator::function_header(*f))).is_prefix_of(
                final(self).output(),
            ),
            c_line(old(self).indent_level(), "}\n"@).is_suffix_of(final(self).output()),
    {
        let ghost start = *self;
        let ret_ty = self.map_type_expr(f.return_type.as_ref());
        let params = self.emit_param_list(&f.params);
        let mut l = cat5(ret_ty.as_str(), " lucid_fn_", f.name.as_str(), "(", params.as_str());
        l.append(") {");
        self.line(l.as_str());
        let ghost head = self.output();
        proof {
            assert(head =~= start.output() + c_line(start.indent_level(), CCodeGenerator::function_header(*f)));
        }
        self.indent_in();
        self.in_function = true;
        self.current_fn_ret_type = Some(ret_ty);
        self.var_types = Table::new();
        let ghost s1 = *self;
        proof {
            Self::lemma_extends_refl(*self);
        }
        let mut i: usize = 0;
        while i < f.params.len()
            invariant
                self.wf(),
                self.output() == s1.output(),
                self.indent == s1.indent,
                i <= f.params@.len(),
            decreases f.params.len() - i,
        {
            let ty = self.map_type_expr(f.params[i].type_annotation.as_ref());
            self.var_types.insert(f.params[i].name.clone(), ty);
            i = i + 1;
        }
        let mut local_vars: Table<String> = Table::new();
        let mut i: usize = 0;
        while i < f.body.len()
            invariant
                self.wf(),
                local_vars.wf(),
                self.output() == s1.output(),
                self.indent == s1.indent,
                i <= f.body@.len(),
            decreases f.body.len() - i,
        {
            self.collect_vars_from_stmt(&f.body[i], &mut local_vars);
            i = i + 1;
        }
        let mut i: usize = 0;
        let ghost s2 = *self;
        while i < local_vars.len()
            invariant
                self.wf(),
                local_vars.wf(),
                s2.output().is_prefix_of(self.output()),
                self.indent == s1.indent,
                i <= local_vars.entry_seq().len(),
            decreases local_vars.entry_seq().len() - i,
        {
            let (name, ty) = local_vars.entry(i);
            if !param_named(&f.params, name.as_str()) {
                self.var_types.insert(name.clone(), ty.clone());
                let init = init_value_text(ty.as_str());
                let l = cat5(ty.as_str(), " lucid_var_", name.as_str(), " = ", init);
                let mut l = l;
                l.append(";");
                let ghost before = self.output();
                self.emit_line(l.as_str());
                proof {
                    assert(self.output().subrange(0, before.len() as int) =~= before);
                    crate::text::lemma_prefix_trans(s2.output(), before, self.output());
                }
            }
            i = i + 1;
        }
        proof {
            assert(s2.output() == s1.output());
            assert(start.output().is_prefix_of(s1.output()));
        }
        let ghost s3 = *self;
        self.emit_stmts(&f.body);
        self.in_function = false;
        self.current_fn_ret_type = None;
        self.indent_out();
        let ghost before = self.output();
        self.emit_line("}\n");
        proof {
            assert(self.output().subrange(0, before.len() as int) =~= before);
            crate::text::lemma_prefix_trans(s2.output(), s3.output(), before);
            crate::text::lemma_prefix_trans(s2.output(), before, self.output());
            crate::text::lemma_prefix_trans(start.output(), s2.output(), self.output());
            crate::text::lemma_prefix_trans(head, s2.output(), self.output());
            let tail = c_line(start.indent_level(), "}\n"@);
            assert(self.output() =~= before + tail);
            assert(tail =~= self.output().subrange(self.output().len() - tail.len(), self.output().len() as int));
        }
    }
}

/// Whether a top-level statement becomes part of `main` (everything but
/// function, class, interface and trait definitions).
pub open spec fn is_top_level_code(s: Stmt) -> bool {
    !(s is Function || s is ClassDef || s is InterfaceDef || s is TraitDef)
}

fn top_level_code(s: &Stmt) -> (r: bool)
    ensures
        r == is_top_level_code(*s),
{
    !matches!(s, Stmt::Function(_) | Stmt::ClassDef { .. } | Stmt::InterfaceDef { .. } | Stmt::TraitDef { .. })
}

impl CCodeGenerator {
    /// The C text of the body of `main` at `level`: the texts of the
    /// top-level statements that are code (see `is_top_level_code`) in
    /// order, when each has one (see `stmt_text`).
    pub closed spec fn main_text(&self, ss: Seq<Stmt>, level: nat) -> Option<Seq<char>>
        decreases ss,
    {
        if ss.len() == 0 {
            Some(Seq::empty())
        } else {
            let last = if is_top_level_code(ss.last()) {
                self.stmt_text(ss.last(), level)
            } else {
                Some(Seq::empty())
            };
            match (self.main_text(ss.drop_last(), level), last) {
                (Some(a), Some(b)) => Some(a + b),
                _ => None,
            }
        }
    }

    /// The text of `main` around a body of text `body` at `level`.
    pub open spec fn main_function_text(level: nat, body: Seq<char>) -> Seq<char> {
        c_line(level, "int main(int argc, char** argv) {"@) + c_line(level + 1, "(void)argc; (void)argv;"@) + body
            + c_line(level + 1, "return 0;"@) + c_line(level, "}"@)
    }

    proof fn lemma_main_text_knowledge(&self, other: Self, ss: Seq<Stmt>, level: nat)
        requires
            self.same_knowledge(other),
        ensures
            self.main_text(ss, level) == other.main_text(ss, level),
        decreases ss,
    {
        if ss.len() > 0 {
            self.lemma_main_text_knowledge(other, ss.drop_last(), level);
            self.lemma_stmt_text_knowledge(other, ss.last(), level);
        }
    }

    proof fn lemma_main_text_prefix(&self, ss: Seq<Stmt>, i: int, level: nat)
        requires
            self.main_text(ss, level) is Some,
            0 <= i <= ss.len(),
        ensures
            self.main_text(ss.take(i), level) is Some,
            i > 0 && is_top_level_code(ss[i - 1]) ==> self.stmt_text(ss[i - 1], level) is Some,
        decreases ss.len() - i,
    {
        if i < ss.len() {
            self.lemma_main_text_prefix(ss, i + 1, level);
            assert(ss.take(i + 1).drop_last() =~= ss.take(i));
        } else {
            assert(ss.take(i) =~= ss);
        }
        if i > 0 {
            assert(ss.take(i).last() == ss[i - 1]);
        }
    }

    /// Generates the C program for a module: the preamble, a forward
    /// declaration, struct, constructor and methods for each class, the
    /// global variables, a prototype and a definition for each function, and
    /// `main` running the other top-level statements. The text returned is
    /// everything generated so far; it ends with `main`, whose body is the
    /// text of those statements where they have one (see `main_text`). For
    /// each function of the module its prototype line and its header line
    /// occur in the text, and for each class its `typedef` line and the
    /// opening line of its struct.
    #[verifier::spinoff_prover]
    #[verifier::rlimit(40)]
    pub fn generate(&mut self, module: &Module) -> (r: Result<String, CodegenError>)
        requires
            old(self).wf(),
            module_ok(module.statements@),
        ensures
            final(self).wf(),
            r matches Ok(text) && text@ == final(self).output() && (old(self).output()
                + C_PREAMBLE@).is_prefix_of(text@),
            final(self).indent_level() < usize::MAX ==> (final(self).main_text(
                module.statements@,
                final(self).indent_level() + 1,
            ) matches Some(body) ==> CCodeGenerator::main_function_text(final(self).indent_level(), body).is_suffix_of(
                final(self).output(),
            )),
            forall|j: int|
                0 <= j < module.statements@.len() ==> (#[trigger] module.statements@[j] matches Stmt::Function(f)
                    ==> contains_text(
                    final(self).output(),
                    c_line(final(self).indent_level(), CCodeGenerator::function_prototype(f)),
                ) && contains_text(
                    final(self).output(),
                    c_line(final(self).indent_level(), CCodeGenerator::function_header(f)),
                )),
            forall|j: int|
                0 <= j < module.statements@.len() ==> (#[trigger] module.statements@[j] matches Stmt::ClassDef { name, .. }
                    ==> contains_text(
                    final(self).output(),
                    c_line(final(self).indent_level(), "typedef struct "@ + name@ + " "@ + name@ + ";"@),
                ) && contains_text(final(self).output(), c_line(final(self).indent_level(), "struct "@ + name@ + " {"@))),
    {
        let ss = &module.statements;
        let mut i: usize = 0;
        while i < ss.len()
            invariant
                self.wf(),
                i <= ss@.len(),
                self.output() == old(self).output(),
            decreases ss.len() - i,
        {
            match &ss[i] {
                Stmt::ClassDef { name, body, .. } => {
                    let mut fields: Vec<String> = Vec::new();
                    let mut j: usize = 0;
                    while j < body.len()
                        invariant
                            self.wf(),
                            self.output() == old(self).output(),
                            j <= body@.len(),
                        decreases body.len() - j,
                    {
                        match &body[j] {
                            ClassMember::Field(f) => fields.push(f.name.clone()),
                            ClassMember::Method(m) => {
                                self.known_methods.insert(m.name.clone(), name.clone());
                            },
                            _ => {},
                        }
                        j = j + 1;
                    }
                    self.known_classes.insert(name.clone(), fields);
                },
                Stmt::Function(f) => {
                    let ret_ty = self.map_type_expr(f.return_type.as_ref());
                    self.known_fns.insert(f.name.clone(), ret_ty);
                },
                _ => {},
            }
            i = i + 1;
        }
        self.emit_preamble();
        let ghost s0 = *self;
        proof {
            Self::lemma_extends_refl(*self);
        }
        let ghost lvl0 = s0.indent_level();
        let mut i: usize = 0;
        while i < ss.len()
            invariant
                self.wf(),
                self.extends(s0),
                lvl0 == s0.indent_level(),
                i <= ss@.len(),
                forall|j: int|
                    0 <= j < i ==> (#[trigger] ss@[j] matches Stmt::ClassDef { name, .. } ==> contains_text(
                        self.output(),
                        c_line(lvl0, "typedef struct "@ + name@ + " "@ + name@ + ";"@),
                    )),
            decreases ss.len() - i,
        {
            let ghost before = *self;
            match &ss[i] {
                Stmt::ClassDef { name, .. } => {
                    let l = cat5("typedef struct ", name.as_str(), " ", name.as_str(), ";");
                    let ghost s1 = *self;
                    self.line(l.as_str());
                    proof {
                        Self::lemma_extends_trans(s0, s1, *self);
                        assert(self.output() =~= s1.output() + c_line(lvl0, "typedef struct "@ + name@ + " "@ + name@ + ";"@));
                        assert((s1.output() + c_line(lvl0, "typedef struct "@ + name@ + " "@ + name@ + ";"@)).is_prefix_of(
                            self.output(),
                        ));
                        lemma_contains_after(
                            s1.output(),
                            c_line(lvl0, "typedef struct "@ + name@ + " "@ + name@ + ";"@),
                            self.output(),
                        );
                    }
                },
                _ => {},
            }
            proof {
                assert(before.output().is_prefix_of(self.output())) by {
                    assert(self.output().subrange(0, before.output().len() as int) =~= before.output()) by {
                        if !(ss@[i as int] is ClassDef) {
                            assert(self.output() == before.output());
                        }
                    }
                }
                assert forall|j: int| 0 <= j < i + 1 implies (#[trigger] ss@[j] matches Stmt::ClassDef { name, .. }
                    ==> contains_text(self.output(), c_line(lvl0, "typedef struct "@ + name@ + " "@ + name@ + ";"@))) by {
                    if j < i {
                        if let Stmt::ClassDef { name, .. } = ss@[j] {
                            lemma_contains_grow(
                                before.output(),
                                self.output(),
                                c_line(lvl0, "typedef struct "@ + name@ + " "@ + name@ + ";"@),
                            );
                        }
                    }
                }
            }
            i = i + 1;
        }
        let ghost s1 = *self;
        self.line("");
        proof {
            Self::lemma_extends_trans(s0, s1, *self);
        }
        let ghost st = *self;
        proof {
            Self::lemma_extends_refl(*self);
            assert(s1.output().is_prefix_of(st.output())) by {
                assert(st.output().subrange(0, s1.output().len() as int) =~= s1.output());
            }
            assert forall|j: int| 0 <= j < ss@.len() implies (#[trigger] ss@[j] matches Stmt::ClassDef { name, .. }
                ==> contains_text(st.output(), c_line(lvl0, "typedef struct "@ + name@ + " "@ + name@ + ";"@))) by {
                if let Stmt::ClassDef { name, .. } = ss@[j] {
                    lemma_contains_grow(s1.output(), st.output(), c_line(lvl0, "typedef struct "@ + name@ + " "@ + name@ + ";"@));
                }
            }
        }
        let mut i: usize = 0;
        while i < ss.len()
            invariant
                self.wf(),
                self.extends(s0),
                self.extends(st),
                module_ok(ss@),
                lvl0 == s0.indent_level(),
                i <= ss@.len(),
                forall|j: int|
                    0 <= j < i ==> (#[trigger] ss@[j] matches Stmt::ClassDef { name, .. } ==> contains_text(
                        self.output(),
                        c_line(lvl0, "struct "@ + name@ + " {"@),
                    )),
            decreases ss.len() - i,
        {
            let ghost before = *self;
            match &ss[i] {
                Stmt::ClassDef { name, body, .. } => {
                    proof {
                        assert(members_ok(body@)) by {
                            assert(match ss@[i as int] {
                                Stmt::ClassDef { body, .. } => members_ok(body@),
                                Stmt::Function(f) => block_ok(f.body@),
                                Stmt::InterfaceDef { .. } => true,
                                Stmt::TraitDef { .. } => true,
                                other => stmt_ok(other),
                            });
                        }
                    }
                    let ghost s1 = *self;
                    self.emit_class_def(name.as_str(), body);
                    proof {
                        Self::lemma_extends_trans(s0, s1, *self);
                        Self::lemma_extends_trans(st, s1, *self);
                        lemma_contains_after(s1.output(), c_line(lvl0, "struct "@ + name@ + " {"@), self.output());
                    }
                },
                _ => {},
            }
            proof {
                assert(before.output().is_prefix_of(self.output())) by {
                    assert(self.output().subrange(0, before.output().len() as int) =~= before.output()) by {
                        if !(ss@[i as int] is ClassDef) {
                            assert(self.output() == before.output());
                        }
                    }
                }
                assert forall|j: int| 0 <= j < i + 1 implies (#[trigger] ss@[j] matches Stmt::ClassDef { name, .. }
                    ==> contains_text(self.output(), c_line(lvl0, "struct "@ + name@ + " {"@))) by {
                    if j < i {
                        if let Stmt::ClassDef { name, .. } = ss@[j] {
                            lemma_contains_grow(before.output(), self.output(), c_line(lvl0, "struct "@ + name@ + " {"@));
                        }
                    }
                }
            }
            i = i + 1;
        }
        let ghost sc = *self;
        let mut top_vars: Table<String> = Table::new();
        let mut i: usize = 0;
        while i < ss.len()
            invariant
                self.wf(),
                top_vars.wf(),
                self.extends(s0),
                i <= ss@.len(),
            decreases ss.len() - i,
        {
            if top_level_code(&ss[i]) {
                self.collect_vars_from_stmt(&ss[i], &mut top_vars);
            }
            i = i + 1;
        }
        let ghost s2 = *self;
        let mut globals: Table<String> = Table::new();
        let mut i: usize = 0;
        while i < top_vars.len()
            invariant
                globals.wf(),
                top_vars.wf(),
                i <= top_vars.entry_seq().len(),
            decreases top_vars.entry_seq().len() - i,
        {
            let (name, ty) = top_vars.entry(i);
            globals.insert(name.clone(), ty.clone());
            i = i + 1;
        }
        self.global_vars = globals;
        let ghost s3 = *self;
        let mut i: usize = 0;
        proof {
            assert(s3.buffer@ == s2.buffer@);
        }
        while i < top_vars.len()
            invariant
                self.wf(),
                top_vars.wf(),
                s3.buffer@.is_prefix_of(self.buffer@),
                self.indent == s3.indent,
                i <= top_vars.entry_seq().len(),
            decreases top_vars.entry_seq().len() - i,
        {
            let (name, ty) = top_vars.entry(i);
            let l = cat5("static ", ty.as_str(), " lucid_var_", name.as_str(), ";");
            let ghost before = self.buffer@;
            self.emit_line(l.as_str());
            proof {
                assert(self.buffer@.subrange(0, before.len() as int) =~= before);
                crate::text::lemma_prefix_trans(s3.buffer@, before, self.buffer@);
            }
            i = i + 1;
        }
        let ghost before = self.buffer@;
        self.emit_line("");
        proof {
            assert(self.buffer@.subrange(0, before.len() as int) =~= before);
            crate::text::lemma_prefix_trans(s3.buffer@, before, self.buffer@);
        }
        let ghost lvl3 = s3.indent_level();
        let mut i: usize = 0;
        while i < ss.len()
            invariant
                self.wf(),
                s3.buffer@.is_prefix_of(self.buffer@),
                self.indent == s3.indent,
                lvl3 == s3.indent_level(),
                i <= ss@.len(),
                forall|j: int|
                    0 <= j < i ==> (#[trigger] ss@[j] matches Stmt::Function(f) ==> contains_text(
                        self.output(),
                        c_line(lvl3, CCodeGenerator::function_prototype(f)),
                    )),
            decreases ss.len() - i,
        {
            let ghost before = self.buffer@;
            match &ss[i] {
                Stmt::Function(f) => {
                    let ret_ty = self.map_type_expr(f.return_type.as_ref());
                    let params = self.emit_param_list(&f.params);
                    let mut l = cat5(ret_ty.as_str(), " lucid_fn_", f.name.as_str(), "(", params.as_str());
                    l.append(");");
                    self.emit_line(l.as_str());
                    proof {
                        assert(self.buffer@.subrange(0, before.len() as int) =~= before);
                        crate::text::lemma_prefix_trans(s3.buffer@, before, self.buffer@);
                        assert(self.output() =~= before + c_line(lvl3, CCodeGenerator::function_prototype(*f)));
                        assert((before + c_line(lvl3, CCodeGenerator::function_prototype(*f))).is_prefix_of(self.output()));
                        lemma_contains_after(before, c_line(lvl3, CCodeGenerator::function_prototype(*f)), self.output());
                    }
                },
                _ => {},
            }
            proof {
                assert(before.is_prefix_of(self.buffer@)) by {
                    assert(self.buffer@.subrange(0, before.len() as int) =~= before);
                }
                assert forall|j: int| 0 <= j < i + 1 implies (#[trigger] ss@[j] matches Stmt::Function(f) ==> contains_text(
                    self.output(),
                    c_line(lvl3, CCodeGenerator::function_prototype(f)),
                )) by {
                    if j < i {
                        if let Stmt::Function(f) = ss@[j] {
                            lemma_contains_grow(before, self.buffer@, c_line(lvl3, CCodeGenerator::function_prototype(f)));
                        }
                    }
                }
            }
            i = i + 1;
        }
        let ghost sp = *self;
        let ghost before = self.buffer@;
        self.emit_line("");
        proof {
            assert(self.buffer@.subrange(0, before.len() as int) =~= before);
            crate::text::lemma_prefix_trans(s3.buffer@, before, self.buffer@);
        }
        proof {
            assert(sp.buffer@.is_prefix_of(self.buffer@)) by {
                assert(self.buffer@.subrange(0, sp.buffer@.len() as int) =~= sp.buffer@);
            }
        }
        let mut i: usize = 0;
        while i < ss.len()
            invariant
                self.wf(),
                module_ok(ss@),
                s3.buffer@.is_prefix_of(self.buffer@),
                sp.buffer@.is_prefix_of(self.buffer@),
                self.indent == s3.indent,
                lvl3 == s3.indent_level(),
                i <= ss@.len(),
                forall|j: int|
                    0 <= j < ss@.len() ==> (#[trigger] ss@[j] matches Stmt::Function(f) ==> contains_text(
                        sp.output(),
                        c_line(lvl3, CCodeGenerator::function_prototype(f)),
                    )),
                forall|j: int|
                    0 <= j < i ==> (#[trigger] ss@[j] matches Stmt::Function(f) ==> contains_text(
                        self.output(),
                        c_line(lvl3, CCodeGenerator::function_header(f)),
                    )),
            decreases ss.len() - i,
        {
            let ghost before0 = self.buffer@;
            match &ss[i] {
                Stmt::Function(f) => {
                    proof {
                        assert(block_ok(f.body@)) by {
                            assert(match ss@[i as int] {
                                Stmt::ClassDef { body, .. } => members_ok(body@),
                                Stmt::Function(f) => block_ok(f.body@),
                                Stmt::InterfaceDef { .. } => true,
                                Stmt::TraitDef { .. } => true,
                                other => stmt_ok(other),
                            });
                        }
                    }
                    let ghost before = self.buffer@;
                    self.emit_function(f);
                    proof {
                        crate::text::lemma_prefix_trans(s3.buffer@, before, self.buffer@);
                        crate::text::lemma_prefix_trans(sp.buffer@, before, self.buffer@);
                        lemma_contains_after(before, c_line(lvl3, CCodeGenerator::function_header(*f)), self.output());
                    }
                },
                _ => {},
            }
            proof {
                assert(before0.is_prefix_of(self.buffer@)) by {
                    assert(self.buffer@.subrange(0, before0.len() as int) =~= before0);
                }
                assert forall|j: int| 0 <= j < i + 1 implies (#[trigger] ss@[j] matches Stmt::Function(f) ==> contains_text(
                    self.output(),
                    c_line(lvl3, CCodeGenerator::function_header(f)),
                )) by {
                    if j < i {
                        if let Stmt::Function(f) = ss@[j] {
                            lemma_contains_grow(before0, self.buffer@, c_line(lvl3, CCodeGenerator::function_header(f)));
                        }
                    }
                }
            }
            i = i + 1;
        }
        let ghost sd = *self;
        let ghost before = self.buffer@;
        let ghost lvl = self.indent_level();
        let ghost main_start = self.output();
        self.emit_line("int main(int argc, char** argv) {");
        self.indent_in();
        self.emit_line("(void)argc; (void)argv;");
        self.var_types = Table::new();
        let ghost sm = *self;
        let ghost whole = lvl < usize::MAX && sm.main_text(ss@, lvl + 1) is Some;
        proof {
            assert(self.buffer@.subrange(0, before.len() as int) =~= before);
            crate::text::lemma_prefix_trans(s3.buffer@, before, self.buffer@);
            crate::text::lemma_prefix_trans(sd.buffer@, before, self.buffer@);
            assert(ss@.take(0) =~= Seq::<Stmt>::empty());
            assert(sm.output() + Seq::<char>::empty() =~= sm.output());
        }
        let mut i: usize = 0;
        while i < ss.len()
            invariant
                self.wf(),
                module_ok(ss@),
                s3.buffer@.is_prefix_of(self.buffer@),
                sd.buffer@.is_prefix_of(self.buffer@),
                i <= ss@.len(),
                self.same_knowledge(sm),
                self.indent == sm.indent,
                whole == (lvl < usize::MAX && sm.main_text(ss@, lvl + 1) is Some),
                whole ==> sm.indent_level() == lvl + 1,
                whole ==> (sm.main_text(ss@.take(i as int), lvl + 1) matches Some(t) && self.output() == sm.output() + t),
            decreases ss.len() - i,
        {
            let ghost s_i = *self;
            proof {
                if whole {
                    sm.lemma_main_text_prefix(ss@, i + 1, lvl + 1);
                    assert(ss@.take(i + 1).drop_last() =~= ss@.take(i as int));
                    assert(ss@.take(i + 1).last() == ss@[i as int]);
                }
                self.lemma_stmt_text_knowledge(sm, ss@[i as int], lvl + 1);
            }
            if top_level_code(&ss[i]) {
                proof {
                    assert(stmt_ok(ss@[i as int])) by {
                        assert(match ss@[i as int] {
                            Stmt::ClassDef { body, .. } => members_ok(body@),
                            Stmt::Function(f) => block_ok(f.body@),
                            Stmt::InterfaceDef { .. } => true,
                            Stmt::TraitDef { .. } => true,
                            other => stmt_ok(other),
                        });
                    }
                }
                let ghost s4 = *self;
                self.emit_stmt(&ss[i]);
                proof {
                    crate::text::lemma_prefix_trans(s3.buffer@, s4.buffer@, self.buffer@);
                    crate::text::lemma_prefix_trans(sd.buffer@, s4.buffer@, self.buffer@);
                }
            }
            proof {
                if whole {
                    let pre = sm.main_text(ss@.take(i as int), lvl + 1)->Some_0;
                    if is_top_level_code(ss@[i as int]) {
                        let st = sm.stmt_text(ss@[i as int], lvl + 1)->Some_0;
                        assert(self.output() =~= sm.output() + (pre + st));
                    } else {
                        assert(self.output() =~= sm.output() + (pre + Seq::<char>::empty()));
                    }
                }
            }
            i = i + 1;
        }
        proof {
            if whole {
                assert(ss@.take(ss@.len() as int) =~= ss@);
            }
        }
        let ghost s_body = *self;
        let ghost before = self.buffer@;
        self.emit_line("return 0;");
        self.indent_out();
        self.emit_line("}");
        proof {
            assert(self.buffer@.subrange(0, before.len() as int) =~= before);
            crate::text::lemma_prefix_trans(s3.buffer@, before, self.buffer@);
            crate::text::lemma_prefix_trans(sd.buffer@, before, self.buffer@);
            assert(self.indent_level() == lvl3);
            assert(lvl3 == lvl0);
            assert(sc.buffer@ == s3.buffer@);
            assert forall|j: int| 0 <= j < ss@.len() implies (#[trigger] ss@[j] matches Stmt::ClassDef { name, .. }
                ==> contains_text(
                self.output(),
                c_line(self.indent_level(), "typedef struct "@ + name@ + " "@ + name@ + ";"@),
            ) && contains_text(self.output(), c_line(self.indent_level(), "struct "@ + name@ + " {"@))) by {
                if let Stmt::ClassDef { name, .. } = ss@[j] {
                    crate::text::lemma_prefix_trans(st.buffer@, sc.buffer@, self.buffer@);
                    lemma_contains_grow(st.output(), self.output(), c_line(lvl0, "typedef struct "@ + name@ + " "@ + name@ + ";"@));
                    lemma_contains_grow(sc.output(), self.output(), c_line(lvl0, "struct "@ + name@ + " {"@));
                }
            }
            assert forall|j: int| 0 <= j < ss@.len() implies (#[trigger] ss@[j] matches Stmt::Function(f) ==> contains_text(
                self.output(),
                c_line(self.indent_level(), CCodeGenerator::function_prototype(f)),
            ) && contains_text(self.output(), c_line(self.indent_level(), CCodeGenerator::function_header(f)))) by {
                if let Stmt::Function(f) = ss@[j] {
                    crate::text::lemma_prefix_trans(sp.buffer@, sd.buffer@, self.buffer@);
                    lemma_contains_grow(sp.output(), self.output(), c_line(lvl3, CCodeGenerator::function_prototype(f)));
                    lemma_contains_grow(sd.output(), self.output(), c_line(lvl3, CCodeGenerator::function_header(f)));
                }
            }
            crate::text::lemma_prefix_trans(s0.buffer@, s2.buffer@, self.buffer@);
            assert((old(self).output() + C_PREAMBLE@) == s0.buffer@);
            self.lemma_main_text_knowledge(sm, ss@, lvl + 1);
            if whole {
                let body = sm.main_text(ss@, lvl + 1)->Some_0;
                let m = CCodeGenerator::main_function_text(lvl, body);
                assert(self.output() =~= main_start + m);
                assert(m =~= self.output().subrange(self.output().len() - m.len(), self.output().len() as int));
            }
        }
        Ok(self.buffer.clone())
    }
}

/// Whether every call of a method named `append` that code is generated for
/// has an argument (see `appends_ok`).
pub fn expr_generatable(e: &Expr) -> (r: bool)
    ensures
        r == appends_ok(*e),
    decreases e,
{
    match e {
        Expr::Binary { left, right, .. } => expr_generatable(left) && expr_generatable(right),
        Expr::Unary { expr, .. } => expr_generatable(expr),
        Expr::Call { func, args, .. } => {
            let attr_ok = match &**func {
                Expr::Attribute { attr, .. } => !str_equal(attr.as_str(), "append") || args.len() > 0,
                _ => true,
            };
            attr_ok && expr_generatable(func) && args_generatable(args)
        },
        Expr::Index { value, index, .. } => expr_generatable(value) && expr_generatable(index),
        Expr::Slice { start, stop, step, .. } => {
            let a = match start {
                Some(b) => expr_generatable(b),
                None => true,
            };
            let b = match stop {
                Some(x) => expr_generatable(x),
                None => true,
            };
            let c = match step {
                Some(x) => expr_generatable(x),
                None => true,
            };
            a && b && c
        },
        Expr::Attribute { value, .. } => expr_generatable(value),
        Expr::List { elements, .. } => exprs_generatable(elements),
        Expr::ListComp { element, iter, condition, .. } => {
            let c = match condition {
                Some(x) => expr_generatable(x),
                None => true,
            };
            expr_generatable(element) && expr_generatable(iter) && c
        },
        Expr::IfExpr { condition, then_branch, else_branch, .. } => expr_generatable(condition) && expr_generatable(
            then_branch,
        ) && expr_generatable(else_branch),
        _ => true,
    }
}

fn args_generatable(args: &Vec<Arg>) -> (r: bool)
    ensures
        r == args_ok(args@),
    decreases args,
{
    let mut i: usize = 0;
    proof {
        assert(args@.take(0) =~= Seq::<Arg>::empty());
    }
    while i < args.len()
        invariant
            i <= args@.len(),
            args_ok(args@.take(i as int)),
        decreases args.len() - i,
    {
        proof {
            assert(decreases_to!(args => args[i as int]));
            assert(args@.take(i + 1).drop_last() =~= args@.take(i as int));
            assert(args@.take(i + 1).last() == args@[i as int]);
        }
        if !expr_generatable(&args[i].value) {
            proof {
                if args_ok(args@) {
                    lemma_args_ok(args@, i as int);
                }
            }
            return false;
        }
        i = i + 1;
    }
    proof {
        assert(args@.take(args@.len() as int) =~= args@);
    }
    true
}

fn exprs_generatable(es: &Vec<Expr>) -> (r: bool)
    ensures
        r == exprs_ok(es@),
    decreases es,
{
    let mut i: usize = 0;
    proof {
        assert(es@.take(0) =~= Seq::<Expr>::empty());
    }
    while i < es.len()
        invariant
            i <= es@.len(),
            exprs_ok(es@.take(i as int)),
        decreases es.len() - i,
    {
        proof {
            assert(decreases_to!(es => es[i as int]));
            assert(es@.take(i + 1).drop_last() =~= es@.take(i as int));
            assert(es@.take(i + 1).last() == es@[i as int]);
        }
        if !expr_generatable(&es[i]) {
            proof {
                if exprs_ok(es@) {
                    lemma_exprs_ok(es@, i as int);
                }
            }
            return false;
        }
        i = i + 1;
    }
    proof {
        assert(es@.take(es@.len() as int) =~= es@);
    }
    true
}

fn opt_expr_generatable(o: &Option<Expr>) -> (r: bool)
    ensures
        r == match *o {
            Some(v) => appends_ok(v),
            None => true,
        },
{
    match o {
        Some(v) => expr_generatable(v),
        None => true,
    }
}

/// Whether every call of a method named `append` in the code generated for
/// a statement has an argument (see `stmt_ok`).
pub fn stmt_generatable(s: &Stmt) -> (r: bool)
    ensures
        r == stmt_ok(*s),
    decreases s,
{
    match s {
        Stmt::VarDef { value, .. } => opt_expr_generatable(value),
        Stmt::Assignment { target, value, .. } => expr_generatable(target) && expr_generatable(value),
        Stmt::AugAssign { target, value, .. } => expr_generatable(target) && expr_generatable(value),
        Stmt::If { condition, then_branch, elif_branches, else_branch, .. } => {
            let e = match else_branch {
                Some(b) => block_generatable(b),
                None => true,
            };
            expr_generatable(condition) && block_generatable(then_branch) && elifs_generatable(elif_branches) && e
        },
        Stmt::While { condition, body, .. } => expr_generatable(condition) && block_generatable(body),
        Stmt::For { iterable, body, .. } => expr_generatable(iterable) && block_generatable(body),
        Stmt::Return { value, .. } => opt_expr_generatable(value),
        Stmt::Expr(e) => expr_generatable(e),
        _ => true,
    }
}

fn block_generatable(ss: &Vec<Stmt>) -> (r: bool)
    ensures
        r == block_ok(ss@),
    decreases ss,
{
    let mut i: usize = 0;
    proof {
        assert(ss@.take(0) =~= Seq::<Stmt>::empty());
    }
    while i < ss.len()
        invariant
            i <= ss@.len(),
            block_ok(ss@.take(i as int)),
        decreases ss.len() - i,
    {
        proof {
            assert(decreases_to!(ss => ss[i as int]));
            assert(ss@.take(i + 1).drop_last() =~= ss@.take(i as int));
            assert(ss@.take(i + 1).last() == ss@[i as int]);
        }
        if !stmt_generatable(&ss[i]) {
            proof {
                if block_ok(ss@) {
                    lemma_block_ok(ss@, i as int);
                }
            }
            return false;
        }
        i = i + 1;
    }
    proof {
        assert(ss@.take(ss@.len() as int) =~= ss@);
    }
    true
}

fn elifs_generatable(elifs: &Vec<(Expr, Vec<Stmt>)>) -> (r: bool)
    ensures
        r == elifs_ok(elifs@),
    decreases elifs,
{
    let mut i: usize = 0;
    proof {
        assert(elifs@.take(0) =~= Seq::<(Expr, Vec<Stmt>)>::empty());
    }
    while i < elifs.len()
        invariant
            i <= elifs@.len(),
            elifs_ok(elifs@.take(i as int)),
        decreases elifs.len() - i,
    {
        proof {
            assert(decreases_to!(elifs => elifs[i as int]));
            assert(decreases_to!(elifs[i as int] => elifs[i as int].0));
            assert(decreases_to!(elifs[i as int] => elifs[i as int].1));
            assert(elifs@.take(i + 1).drop_last() =~= elifs@.take(i as int));
            assert(elifs@.take(i + 1).last() == elifs@[i as int]);
        }
        if !expr_generatable(&elifs[i].0) || !block_generatable(&elifs[i].1) {
            proof {
                if elifs_ok(elifs@) {
                    lemma_elifs_ok(elifs@, i as int);
                }
            }
            return false;
        }
        i = i + 1;
    }
    proof {
        assert(elifs@.take(elifs@.len() as int) =~= elifs@);
    }
    true
}

fn members_generatable(ms: &Vec<ClassMember>) -> (r: bool)
    ensures
        r == members_ok(ms@),
{
    let mut i: usize = 0;
    while i < ms.len()
        invariant
            i <= ms@.len(),
            forall|j: int| 0 <= j < i ==> (#[trigger] ms@[j] matches ClassMember::Method(m) ==> block_ok(m.body@)),
        decreases ms.len() - i,
    {
        match &ms[i] {
            ClassMember::Method(m) => {
                if !block_generatable(&m.body) {
                    return false;
                }
            },
            _ => {},
        }
        i = i + 1;
    }
    true
}

/// Whether code can be generated for a module: every call of a method named
/// `append` that code is generated for has an argument (see `module_ok`).
pub fn module_generatable(module: &Module) -> (r: bool)
    ensures
        r == module_ok(module.statements@),
{
    let ss = &module.statements;
    let mut i: usize = 0;
    while i < ss.len()
        invariant
            i <= ss@.len(),
            ss == &module.statements,
            forall|j: int|
                0 <= j < i ==> match #[trigger] ss@[j] {
                    Stmt::ClassDef { body, .. } => members_ok(body@),
                    Stmt::Function(f) => block_ok(f.body@),
                    Stmt::InterfaceDef { .. } => true,
                    Stmt::TraitDef { .. } => true,
                    other => stmt_ok(other),
                },
        decreases ss.len() - i,
    {
        let ok = match &ss[i] {
            Stmt::ClassDef { body, .. } => members_generatable(body),
            Stmt::Function(f) => block_generatable(&f.body),
            Stmt::InterfaceDef { .. } => true,
            Stmt::TraitDef { .. } => true,
            other => stmt_generatable(other),
        };
        if !ok {
            return false;
        }
        i = i + 1;
    }
    true
}

/// The C text of a non-commutative binary operation keeps its operands in
/// source order: the left operand's code, then the operator, then the right
/// operand's code (through the dynamic helpers where the operands ask for
/// them).
pub proof fn law_operands_in_source_order(g: CCodeGenerator, op: BinaryOp, left: Expr, right: Expr, span: crate::token::Span)
    requires
        g.pure_code(left) is Some,
        g.pure_code(right) is Some,
    ensures
        ({
            let l = g.pure_code(left)->Some_0;
            let r = g.pure_code(right)->Some_0;
            let c = g.pure_code(Expr::Binary { op, left: Box::new(left), right: Box::new(right), span });
            &&& op is Mod ==> c == Some("((int64_t)"@ + l + " % (int64_t)"@ + r + ")"@)
            &&& op is Div ==> c == Some("((double)"@ + l + " / (double)"@ + r + ")"@)
            &&& op is FloorDiv ==> c == Some("((int64_t)((int64_t)"@ + l + " / (int64_t)"@ + r + "))"@)
            &&& op is Pow ==> c == Some("pow((double)"@ + l + ", (double)"@ + r + ")"@)
            &&& op is Shl ==> c == Some("((int64_t)"@ + l + " << (int64_t)"@ + r + ")"@)
            &&& op is Shr ==> c == Some("((int64_t)"@ + l + " >> (int64_t)"@ + r + ")"@)
            &&& op is Sub ==> (c == Some("(lucid_num("@ + l + ") - lucid_num("@ + r + "))"@) || c == Some(
                "("@ + l + " - "@ + r + ")"@,
            ))
            &&& op is Lt ==> (c == Some("lucid_lt(lucid_wrap("@ + l + "), lucid_wrap("@ + r + "))"@) || c == Some(
                "("@ + l + " < "@ + r + ")"@,
            ))
            &&& op is LtEq ==> (c == Some("lucid_lte(lucid_wrap("@ + l + "), lucid_wrap("@ + r + "))"@) || c == Some(
                "("@ + l + " <= "@ + r + ")"@,
            ))
            &&& op is Gt ==> (c == Some("lucid_gt(lucid_wrap("@ + l + "), lucid_wrap("@ + r + "))"@) || c == Some(
                "("@ + l + " > "@ + r + ")"@,
            ))
            &&& op is GtEq ==> (c == Some("lucid_gte(lucid_wrap("@ + l + "), lucid_wrap("@ + r + "))"@) || c == Some(
                "("@ + l + " >= "@ + r + ")"@,
            ))
            &&& op is Add ==> (c == Some("(lucid_num("@ + l + ") + lucid_num("@ + r + "))"@) || c == Some(
                "("@ + l + " + "@ + r + ")"@,
            ))
            &&& op is Mul && !(left is List) ==> (c == Some("(lucid_num("@ + l + ") * lucid_num("@ + r + "))"@) || c
                == Some("("@ + l + " * "@ + r + ")"@))
            &&& op is Eq ==> (c == Some("lucid_eq(lucid_wrap("@ + l + "), lucid_wrap("@ + r + "))"@) || c == Some(
                "("@ + l + " == "@ + r + ")"@,
            ))
            &&& op is NotEq ==> (c == Some("(!lucid_eq(lucid_wrap("@ + l + "), lucid_wrap("@ + r + ")))"@) || c
                == Some("("@ + l + " != "@ + r + ")"@))
            &&& op is BitAnd ==> c == Some("((int64_t)"@ + l + " & (int64_t)"@ + r + ")"@)
            &&& op is BitOr ==> c == Some("((int64_t)"@ + l + " | (int64_t)"@ + r + ")"@)
            &&& op is BitXor ==> c == Some("((int64_t)"@ + l + " ^ (int64_t)"@ + r + ")"@)
            &&& op is And ==> c == Some("(lucid_bool_val("@ + l + ") && lucid_bool_val("@ + r + "))"@)
            &&& op is Or ==> c == Some("(lucid_bool_val("@ + l + ") || lucid_bool_val("@ + r + "))"@)
        }),
{
}

} // verus!
