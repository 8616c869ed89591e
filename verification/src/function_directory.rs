//! The symbol-and-address directory: per-scope tables of variables and
//! parameters, each bound to a permanently assigned memory address at
//! build time. The directory owns the per-type address counters; every
//! address it hands out is unique for the lifetime of a compilation.

use vstd::prelude::*;
use crate::ast::{Program, FunctionDeclaration, VarDeclaration, Parameter, Type};
use crate::quadruples::MemoryAddresses;
use vstd::string::StringSliceAdditionalSpecFns;

verus! {

/// Errors raised while building the directory.
#[derive(Debug)]
pub enum FunctionDirError {
    /// A variable or parameter name collides within its scope:
    /// `(variable name, scope description)`.
    DuplicateVariable(String, String),
    /// Two procedures share a name.
    DuplicateFunction(String),
}

/// A variable with its type and assigned memory address; immutable once
/// created.
#[derive(Debug, Clone)]
pub struct VariableInfo {
    pub var_type: Type,
    pub address: i32,
}

/// One directory entry: a procedure's parameters (name, type, address, in
/// declaration order), its local variables, whether it is the program
/// marker entry, and the index of its first emitted instruction once known.
#[derive(Debug)]
pub struct FunctionInfo {
    pub return_type: Option<Type>,
    pub parameters: Vec<(String, Type, i32)>,
    pub local_variables: Vec<(String, VariableInfo)>,
    pub is_program: bool,
    pub start_quad_idx: Option<i32>,
}

/// The directory: named scopes in insertion order (program marker, then
/// `global`, then `main`, then declared procedures), plus the per-type
/// address counters.
#[derive(Debug)]
pub struct FunctionDirectory {
    pub functions: Vec<(String, FunctionInfo)>,
    pub int_counter: i32,
    pub float_counter: i32,
    pub bool_counter: i32,
}

/// First entry with the given name, if any.
pub open spec fn find_by_name<T>(es: Seq<(String, T)>, name: Seq<char>) -> Option<T>
    decreases es.len(),
{
    if es.len() == 0 {
        None
    } else if es[0].0@ == name {
        Some(es[0].1)
    } else {
        find_by_name(es.drop_first(), name)
    }
}

/// Whether some entry bears the given name.
pub open spec fn has_name<T>(es: Seq<(String, T)>, name: Seq<char>) -> bool {
    find_by_name(es, name) is Some
}

/// First parameter with the given name: its type and address.
pub open spec fn find_param(ps: Seq<(String, Type, i32)>, name: Seq<char>) -> Option<(Type, i32)>
    decreases ps.len(),
{
    if ps.len() == 0 {
        None
    } else if ps[0].0@ == name {
        Some((ps[0].1, ps[0].2))
    } else {
        find_param(ps.drop_first(), name)
    }
}

/// No two entries share a name.
pub open spec fn names_unique<T>(es: Seq<(String, T)>) -> bool {
    forall|i: int, j: int| 0 <= i < j < es.len() ==> es[i].0@ != es[j].0@
}

/// No two parameters share a name.
pub open spec fn param_names_unique(ps: Seq<(String, Type, i32)>) -> bool {
    forall|i: int, j: int| 0 <= i < j < ps.len() ==> ps[i].0@ != ps[j].0@
}

/// Lookup inside one scope: local variables first, then parameters.
pub open spec fn scope_lookup(fi: FunctionInfo, name: Seq<char>) -> Option<VariableInfo> {
    match find_by_name(fi.local_variables@, name) {
        Some(v) => Some(v),
        None => match find_param(fi.parameters@, name) {
            Some((t, a)) => Some(VariableInfo { var_type: t, address: a }),
            None => None,
        },
    }
}

/// Name resolution: the active scope first, then the `global` scope; sibling
/// scopes are never searched.
pub open spec fn resolve_var(
    d: FunctionDirectory,
    scope: Seq<char>,
    name: Seq<char>,
) -> Option<VariableInfo> {
    let here = match find_by_name(d.functions@, scope) {
        Some(fi) => scope_lookup(fi, name),
        None => None,
    };
    match here {
        Some(v) => Some(v),
        None => {
            if scope != "global"@ {
                match find_by_name(d.functions@, "global"@) {
                    Some(g) => find_by_name(g.local_variables@, name),
                    None => None,
                }
            } else {
                None
            }
        },
    }
}

/// The variable-segment address range of a type.
pub open spec fn typed_addr_ok(t: Type, a: i32) -> bool {
    match t {
        Type::Int => MemoryAddresses::INT_START <= a < MemoryAddresses::FLOAT_START,
        Type::Float => MemoryAddresses::FLOAT_START <= a < MemoryAddresses::BOOL_START,
        Type::Bool => MemoryAddresses::BOOL_START <= a < MemoryAddresses::CTE_INT_START,
    }
}

/// The directory's counter for a type.
pub open spec fn counter_of(t: Type, ic: i32, fc: i32, bc: i32) -> i32 {
    match t {
        Type::Int => ic,
        Type::Float => fc,
        Type::Bool => bc,
    }
}

/// Exclusive upper end of a type's variable segment.
pub open spec fn seg_end(t: Type) -> i32 {
    match t {
        Type::Int => MemoryAddresses::FLOAT_START,
        Type::Float => MemoryAddresses::BOOL_START,
        Type::Bool => MemoryAddresses::CTE_INT_START,
    }
}

/// Base of a type's variable segment.
pub open spec fn seg_start(t: Type) -> i32 {
    match t {
        Type::Int => MemoryAddresses::INT_START,
        Type::Float => MemoryAddresses::FLOAT_START,
        Type::Bool => MemoryAddresses::BOOL_START,
    }
}

/// The typed addresses held by one scope: parameters, then locals.
pub open spec fn fn_typed_addrs(fi: FunctionInfo) -> Seq<(Type, i32)> {
    fi.parameters@.map_values(|p: (String, Type, i32)| (p.1, p.2)) + fi.local_variables@.map_values(
        |l: (String, VariableInfo)| (l.1.var_type, l.1.address),
    )
}

/// Every typed address of the whole directory, scopes in order.
pub open spec fn all_typed_addrs(fs: Seq<(String, FunctionInfo)>) -> Seq<(Type, i32)>
    decreases fs.len(),
{
    if fs.len() == 0 {
        Seq::empty()
    } else {
        fn_typed_addrs(fs[0].1) + all_typed_addrs(fs.drop_first())
    }
}

/// Every listed address sits in its type's variable segment and below that
/// type's counter.
pub open spec fn typed_addrs_ok(s: Seq<(Type, i32)>, ic: i32, fc: i32, bc: i32) -> bool {
    forall|k: int|
        0 <= k < s.len() ==> typed_addr_ok(#[trigger] s[k].0, s[k].1) && s[k].1 < counter_of(
            s[k].0,
            ic,
            fc,
            bc,
        )
}

/// No two listed declarations share an address.
pub open spec fn distinct_addrs(s: Seq<(Type, i32)>) -> bool {
    forall|i: int, j: int| 0 <= i < j < s.len() ==> s[i].1 != s[j].1
}

/// Well-formedness of one scope: parameter names unique, local names
/// unique, and no name both a parameter and a local.
pub open spec fn fn_wf(fi: FunctionInfo) -> bool {
    &&& param_names_unique(fi.parameters@)
    &&& names_unique(fi.local_variables@)
    &&& forall|i: int, j: int|
        0 <= i < fi.parameters@.len() && 0 <= j < fi.local_variables@.len()
            ==> #[trigger] fi.parameters@[i].0@ != #[trigger] fi.local_variables@[j].0@
}

/// Well-formedness of the directory: scope names unique, each scope well
/// formed, counters inside their segments, and every assigned address in
/// range, below its counter, and distinct from every other — the address
/// uniqueness guarantee.
pub open spec fn dir_wf(d: FunctionDirectory) -> bool {
    &&& names_unique(d.functions@)
    &&& forall|k: int| 0 <= k < d.functions@.len() ==> fn_wf(#[trigger] d.functions@[k].1)
    &&& MemoryAddresses::INT_START <= d.int_counter <= MemoryAddresses::FLOAT_START
    &&& MemoryAddresses::FLOAT_START <= d.float_counter <= MemoryAddresses::BOOL_START
    &&& MemoryAddresses::BOOL_START <= d.bool_counter <= MemoryAddresses::CTE_INT_START
    &&& typed_addrs_ok(
        all_typed_addrs(d.functions@),
        d.int_counter,
        d.float_counter,
        d.bool_counter,
    )
    &&& distinct_addrs(all_typed_addrs(d.functions@))
}

/// Address uniqueness: in a well-formed directory, no two declared
/// variables or parameters, across all scopes of the whole program, share a
/// memory address.
pub proof fn lemma_address_uniqueness(d: FunctionDirectory)
    requires
        dir_wf(d),
    ensures
        distinct_addrs(all_typed_addrs(d.functions@)),
{
}

/// Appending one scope appends its typed addresses.
pub proof fn lemma_all_typed_addrs_push(fs: Seq<(String, FunctionInfo)>, e: (String, FunctionInfo))
    ensures
        all_typed_addrs(fs.push(e)) == all_typed_addrs(fs) + fn_typed_addrs(e.1),
    decreases fs.len(),
{
    if fs.len() == 0 {
        let p = fs.push(e);
        assert(p.len() == 1);
        assert(p[0] == e);
        assert(p.drop_first() =~= Seq::<(String, FunctionInfo)>::empty());
        assert(all_typed_addrs(p) == fn_typed_addrs(p[0].1) + all_typed_addrs(p.drop_first()));
        assert(all_typed_addrs(p.drop_first()) =~= Seq::<(Type, i32)>::empty());
        assert(all_typed_addrs(fs) =~= Seq::<(Type, i32)>::empty());
        assert(all_typed_addrs(fs.push(e)) =~= all_typed_addrs(fs) + fn_typed_addrs(e.1));
    } else {
        lemma_all_typed_addrs_push(fs.drop_first(), e);
        assert(fs.push(e)[0] == fs[0]);
        assert(fs.push(e).drop_first() =~= fs.drop_first().push(e));
        assert(all_typed_addrs(fs.push(e)) =~= all_typed_addrs(fs) + fn_typed_addrs(e.1));
    }
}

/// A match at the first position not bearing the name continues the search.
pub proof fn lemma_find_by_name_at<T>(es: Seq<(String, T)>, name: Seq<char>, i: int)
    requires
        0 <= i < es.len(),
        es[i].0@ == name,
        forall|j: int| 0 <= j < i ==> es[j].0@ != name,
    ensures
        find_by_name(es, name) == Some(es[i].1),
    decreases es.len(),
{
    if i > 0 {
        lemma_find_by_name_at(es.drop_first(), name, i - 1);
    }
}

/// When no entry bears the name, the search is empty.
pub proof fn lemma_find_by_name_none<T>(es: Seq<(String, T)>, name: Seq<char>)
    requires
        forall|j: int| 0 <= j < es.len() ==> es[j].0@ != name,
    ensures
        find_by_name(es, name) is None,
    decreases es.len(),
{
    if es.len() > 0 {
        lemma_find_by_name_none(es.drop_first(), name);
    }
}

/// Parameter search: match at the first qualifying position.
pub proof fn lemma_find_param_at(ps: Seq<(String, Type, i32)>, name: Seq<char>, i: int)
    requires
        0 <= i < ps.len(),
        ps[i].0@ == name,
        forall|j: int| 0 <= j < i ==> ps[j].0@ != name,
    ensures
        find_param(ps, name) == Some((ps[i].1, ps[i].2)),
    decreases ps.len(),
{
    if i > 0 {
        lemma_find_param_at(ps.drop_first(), name, i - 1);
    }
}

/// Parameter search over a list with no match.
pub proof fn lemma_find_param_none(ps: Seq<(String, Type, i32)>, name: Seq<char>)
    requires
        forall|j: int| 0 <= j < ps.len() ==> ps[j].0@ != name,
    ensures
        find_param(ps, name) is None,
    decreases ps.len(),
{
    if ps.len() > 0 {
        lemma_find_param_none(ps.drop_first(), name);
    }
}

/// Exact string comparison, specified over the character views.
pub fn str_eq(a: &str, b: &str) -> (r: bool)
    ensures
        r == (a@ == b@),
{
    let ab = a.as_bytes();
    let bb = b.as_bytes();
    proof {
        if a@ == b@ {
            assert(a.spec_bytes() =~= b.spec_bytes());
        }
    }
    if ab.len() != bb.len() {
        return false;
    }
    let n = ab.len();
    let mut i: usize = 0;
    while i < n
        invariant
            0 <= i <= n,
            n == ab@.len() == bb@.len(),
            ab@ == a.spec_bytes(),
            bb@ == b.spec_bytes(),
            forall|j: int| 0 <= j < i ==> ab@[j] == bb@[j],
        decreases n - i,
    {
        if ab[i] != bb[i] {
            proof {
                if a@ == b@ {
                    assert(a.spec_bytes() =~= b.spec_bytes());
                }
            }
            return false;
        }
        i = i + 1;
    }
    proof {
        assert(a.spec_bytes() =~= b.spec_bytes());
        vstd::utf8::encode_utf8_decode_utf8(a@);
        vstd::utf8::encode_utf8_decode_utf8(b@);
    }
    true
}

/// Position of the first entry with the given name.
pub fn position_of_name<T>(es: &Vec<(String, T)>, name: &str) -> (r: Option<usize>)
    ensures
        match r {
            Some(i) => i < es@.len() && es@[i as int].0@ == name@ && find_by_name(es@, name@)
                == Some(es@[i as int].1),
            None => find_by_name(es@, name@) is None,
        },
{
    let n = es.len();
    let mut i: usize = 0;
    while i < n
        invariant
            0 <= i <= n,
            n == es@.len(),
            forall|j: int| 0 <= j < i ==> es@[j].0@ != name@,
        decreases n - i,
    {
        if str_eq(es[i].0.as_str(), name) {
            proof {
                lemma_find_by_name_at(es@, name@, i as int);
            }
            return Some(i);
        }
        i = i + 1;
    }
    proof {
        lemma_find_by_name_none(es@, name@);
    }
    None
}

/// Position of the first parameter with the given name.
pub fn position_of_param(ps: &Vec<(String, Type, i32)>, name: &str) -> (r: Option<usize>)
    ensures
        match r {
            Some(i) => i < ps@.len() && ps@[i as int].0@ == name@ && find_param(ps@, name@)
                == Some((ps@[i as int].1, ps@[i as int].2)),
            None => find_param(ps@, name@) is None,
        },
{
    let n = ps.len();
    let mut i: usize = 0;
    while i < n
        invariant
            0 <= i <= n,
            n == ps@.len(),
            forall|j: int| 0 <= j < i ==> ps@[j].0@ != name@,
        decreases n - i,
    {
        if str_eq(ps[i].0.as_str(), name) {
            proof {
                lemma_find_param_at(ps@, name@, i as int);
            }
            return Some(i);
        }
        i = i + 1;
    }
    proof {
        lemma_find_param_none(ps@, name@);
    }
    None
}


/// Directory entries stripped of their start indices are congruent: equal
/// typed addresses.
pub proof fn lemma_all_typed_addrs_congruent(
    a: Seq<(String, FunctionInfo)>,
    b: Seq<(String, FunctionInfo)>,
)
    requires
        a.len() == b.len(),
        forall|k: int| 0 <= k < a.len() ==> fn_typed_addrs(#[trigger] a[k].1) == fn_typed_addrs(b[k].1),
    ensures
        all_typed_addrs(a) == all_typed_addrs(b),
    decreases a.len(),
{
    if a.len() > 0 {
        assert(fn_typed_addrs(a[0].1) == fn_typed_addrs(b[0].1));
        assert forall|k: int| 0 <= k < a.drop_first().len() implies fn_typed_addrs(
            #[trigger] a.drop_first()[k].1,
        ) == fn_typed_addrs(b.drop_first()[k].1) by {
            assert(a.drop_first()[k] == a[k + 1]);
            assert(b.drop_first()[k] == b[k + 1]);
        }
        lemma_all_typed_addrs_congruent(a.drop_first(), b.drop_first());
    }
}

/// When the search finds nothing, no entry bears the name.
pub proof fn lemma_find_none_no_match<T>(es: Seq<(String, T)>, name: Seq<char>)
    requires
        find_by_name(es, name) is None,
    ensures
        forall|j: int| 0 <= j < es.len() ==> es[j].0@ != name,
    decreases es.len(),
{
    if es.len() > 0 {
        lemma_find_none_no_match(es.drop_first(), name);
        assert forall|j: int| 0 <= j < es.len() implies es[j].0@ != name by {
            if j > 0 {
                assert(es.drop_first()[j - 1] == es[j]);
            }
        }
    }
}

/// When the parameter search finds nothing, no parameter bears the name.
pub proof fn lemma_find_param_none_no_match(ps: Seq<(String, Type, i32)>, name: Seq<char>)
    requires
        find_param(ps, name) is None,
    ensures
        forall|j: int| 0 <= j < ps.len() ==> ps[j].0@ != name,
    decreases ps.len(),
{
    if ps.len() > 0 {
        lemma_find_param_none_no_match(ps.drop_first(), name);
        assert forall|j: int| 0 <= j < ps.len() implies ps[j].0@ != name by {
            if j > 0 {
                assert(ps.drop_first()[j - 1] == ps[j]);
            }
        }
    }
}

/// Fresh typed addresses (at or above every counter) never collide with the
/// addresses already below the counters.
pub proof fn lemma_distinct_append(
    s1: Seq<(Type, i32)>,
    s2: Seq<(Type, i32)>,
    ic: i32,
    fc: i32,
    bc: i32,
)
    requires
        typed_addrs_ok(s1, ic, fc, bc),
        distinct_addrs(s1),
        distinct_addrs(s2),
        forall|k: int|
            0 <= k < s2.len() ==> typed_addr_ok(#[trigger] s2[k].0, s2[k].1) && s2[k].1
                >= counter_of(s2[k].0, ic, fc, bc),
    ensures
        distinct_addrs(s1 + s2),
{
    let c = s1 + s2;
    assert forall|i: int, j: int| 0 <= i < j < c.len() implies c[i].1 != c[j].1 by {
        if i < s1.len() && j >= s1.len() {
            assert(c[i] == s1[i]);
            assert(c[j] == s2[j - s1.len()]);
            assert(typed_addr_ok(s1[i].0, s1[i].1) && s1[i].1 < counter_of(s1[i].0, ic, fc, bc));
            assert(typed_addr_ok(s2[j - s1.len()].0, s2[j - s1.len()].1) && s2[j - s1.len()].1
                >= counter_of(s2[j - s1.len()].0, ic, fc, bc));
        } else if i >= s1.len() {
            assert(c[i] == s2[i - s1.len()]);
            assert(c[j] == s2[j - s1.len()]);
        } else {
            assert(c[i] == s1[i]);
            assert(c[j] == s1[j]);
        }
    }
}

/// Two variable declaration lists describe the same names and types.
pub open spec fn locals_match(ls: Seq<(String, VariableInfo)>, ds: Seq<VarDeclaration>) -> bool {
    &&& ls.len() == ds.len()
    &&& forall|k: int|
        0 <= k < ds.len() ==> (#[trigger] ls[k]).0@ == ds[k].id@ && ls[k].1.var_type
            == ds[k].var_type
}

/// A parameter list describes the declared parameters' names and types.
pub open spec fn params_match(ps: Seq<(String, Type, i32)>, ds: Seq<Parameter>) -> bool {
    &&& ps.len() == ds.len()
    &&& forall|k: int|
        0 <= k < ds.len() ==> (#[trigger] ps[k]).0@ == ds[k].id@ && ps[k].1 == ds[k].param_type
}

/// Two declarations in the list share a name.
pub open spec fn decls_have_dup(ds: Seq<VarDeclaration>) -> bool {
    exists|i: int, j: int| 0 <= i < j < ds.len() && ds[i].id@ == ds[j].id@
}

/// Two parameter declarations share a name.
pub open spec fn param_decls_have_dup(ds: Seq<Parameter>) -> bool {
    exists|i: int, j: int| 0 <= i < j < ds.len() && ds[i].id@ == ds[j].id@
}

/// A declared local reuses a parameter's name.
pub open spec fn local_hits_param(f: FunctionDeclaration) -> bool {
    exists|i: int, j: int|
        0 <= i < f.vars@.len() && 0 <= j < f.parameters@.len() && f.vars@[i].id@
            == f.parameters@[j].id@
}

/// Name collisions inside one procedure declaration.
pub open spec fn func_has_collision(f: FunctionDeclaration) -> bool {
    param_decls_have_dup(f.parameters@) || decls_have_dup(f.vars@) || local_hits_param(f)
}

/// Any name collision in the program: duplicated globals, a procedure name
/// reusing a reserved or earlier name, or a collision inside a procedure.
pub open spec fn program_collision(p: Program) -> bool {
    ||| decls_have_dup(p.vars@)
    ||| exists|i: int, j: int| 0 <= i < j < p.funcs@.len() && p.funcs@[i].id@ == p.funcs@[j].id@
    ||| exists|i: int|
        0 <= i < p.funcs@.len() && ((#[trigger] p.funcs@[i].id@) == p.id@ || p.funcs@[i].id@
            == "global"@ || p.funcs@[i].id@ == "main"@)
    ||| exists|i: int| 0 <= i < p.funcs@.len() && func_has_collision(#[trigger] p.funcs@[i])
}

/// How many declarations of the type a list holds.
pub open spec fn decls_count(ds: Seq<VarDeclaration>, t: Type) -> nat
    decreases ds.len(),
{
    if ds.len() == 0 {
        0
    } else {
        (if ds[0].var_type == t {
            1nat
        } else {
            0nat
        }) + decls_count(ds.drop_first(), t)
    }
}

/// How many parameters of the type a list holds.
pub open spec fn params_count(ds: Seq<Parameter>, t: Type) -> nat
    decreases ds.len(),
{
    if ds.len() == 0 {
        0
    } else {
        (if ds[0].param_type == t {
            1nat
        } else {
            0nat
        }) + params_count(ds.drop_first(), t)
    }
}

/// Addresses of the type one procedure declaration will consume.
pub open spec fn func_count(f: FunctionDeclaration, t: Type) -> nat {
    params_count(f.parameters@, t) + decls_count(f.vars@, t)
}

/// Addresses of the type a list of procedure declarations will consume.
pub open spec fn funcs_count(fs: Seq<FunctionDeclaration>, t: Type) -> nat
    decreases fs.len(),
{
    if fs.len() == 0 {
        0
    } else {
        func_count(fs[0], t) + funcs_count(fs.drop_first(), t)
    }
}

/// Addresses of the type the whole program will consume.
pub open spec fn program_count(p: Program, t: Type) -> nat {
    decls_count(p.vars@, t) + funcs_count(p.funcs@, t)
}

/// The whole program fits in the fixed variable segments.
pub open spec fn program_fits(p: Program) -> bool {
    &&& program_count(p, Type::Int) <= seg_end(Type::Int) - seg_start(Type::Int)
    &&& program_count(p, Type::Float) <= seg_end(Type::Float) - seg_start(Type::Float)
    &&& program_count(p, Type::Bool) <= seg_end(Type::Bool) - seg_start(Type::Bool)
}


/// `has_name` holds exactly when some entry bears the name.
pub proof fn lemma_has_name_iff<T>(es: Seq<(String, T)>, name: Seq<char>)
    ensures
        has_name(es, name) <==> exists|j: int| 0 <= j < es.len() && (#[trigger] es[j]).0@ == name,
    decreases es.len(),
{
    if es.len() > 0 {
        lemma_has_name_iff(es.drop_first(), name);
        if es[0].0@ == name {
        } else {
            assert forall|j: int|
                0 <= j < es.drop_first().len() && (#[trigger] es.drop_first()[j]).0@
                    == name implies es[j + 1].0@ == name by {}
            if exists|j: int| 0 <= j < es.len() && (#[trigger] es[j]).0@ == name {
                let j = choose|j: int| 0 <= j < es.len() && (#[trigger] es[j]).0@ == name;
                assert(es.drop_first()[j - 1] == es[j]);
            }
        }
    }
}

/// Splitting a declaration list splits its per-type count.
pub proof fn lemma_decls_count_split(ds: Seq<VarDeclaration>, i: int, t: Type)
    requires
        0 <= i <= ds.len(),
    ensures
        decls_count(ds, t) == decls_count(ds.take(i), t) + decls_count(ds.skip(i), t),
    decreases i,
{
    if i == 0 {
        assert(ds.take(0) =~= Seq::<VarDeclaration>::empty());
        assert(ds.skip(0) =~= ds);
    } else {
        lemma_decls_count_split(ds.drop_first(), i - 1, t);
        assert(ds.take(i).drop_first() =~= ds.drop_first().take(i - 1));
        assert(ds.skip(i) =~= ds.drop_first().skip(i - 1));
        assert(decls_count(ds.take(i), t) == (if ds.take(i)[0].var_type == t {
            1nat
        } else {
            0nat
        }) + decls_count(ds.take(i).drop_first(), t));
    }
}

/// The count of a one-longer prefix adds the next declaration.
pub proof fn lemma_decls_count_take_step(ds: Seq<VarDeclaration>, i: int, t: Type)
    requires
        0 <= i < ds.len(),
    ensures
        decls_count(ds.take(i + 1), t) == decls_count(ds.take(i), t) + (if ds[i].var_type == t {
            1nat
        } else {
            0nat
        }),
    decreases i,
{
    if i == 0 {
        assert(ds.take(1).drop_first() =~= Seq::<VarDeclaration>::empty());
        assert(ds.take(0) =~= Seq::<VarDeclaration>::empty());
        assert(ds.take(1)[0] == ds[0]);
    } else {
        lemma_decls_count_take_step(ds.drop_first(), i - 1, t);
        assert(ds.take(i + 1).drop_first() =~= ds.drop_first().take(i));
        assert(ds.take(i).drop_first() =~= ds.drop_first().take(i - 1));
        assert(ds.take(i + 1)[0] == ds[0]);
        assert(ds.take(i)[0] == ds[0]);
        assert(ds.drop_first()[i - 1] == ds[i]);
    }
}

/// Splitting a parameter list splits its per-type count.
pub proof fn lemma_params_count_split(ds: Seq<Parameter>, i: int, t: Type)
    requires
        0 <= i <= ds.len(),
    ensures
        params_count(ds, t) == params_count(ds.take(i), t) + params_count(ds.skip(i), t),
    decreases i,
{
    if i == 0 {
        assert(ds.take(0) =~= Seq::<Parameter>::empty());
        assert(ds.skip(0) =~= ds);
    } else {
        lemma_params_count_split(ds.drop_first(), i - 1, t);
        assert(ds.take(i).drop_first() =~= ds.drop_first().take(i - 1));
        assert(ds.skip(i) =~= ds.drop_first().skip(i - 1));
        assert(params_count(ds.take(i), t) == (if ds.take(i)[0].param_type == t {
            1nat
        } else {
            0nat
        }) + params_count(ds.take(i).drop_first(), t));
    }
}

/// The count of a one-longer parameter prefix adds the next parameter.
pub proof fn lemma_params_count_take_step(ds: Seq<Parameter>, i: int, t: Type)
    requires
        0 <= i < ds.len(),
    ensures
        params_count(ds.take(i + 1), t) == params_count(ds.take(i), t) + (
        if ds[i].param_type == t {
            1nat
        } else {
            0nat
        }),
    decreases i,
{
    if i == 0 {
        assert(ds.take(1).drop_first() =~= Seq::<Parameter>::empty());
        assert(ds.take(0) =~= Seq::<Parameter>::empty());
        assert(ds.take(1)[0] == ds[0]);
    } else {
        lemma_params_count_take_step(ds.drop_first(), i - 1, t);
        assert(ds.take(i + 1).drop_first() =~= ds.drop_first().take(i));
        assert(ds.take(i).drop_first() =~= ds.drop_first().take(i - 1));
        assert(ds.take(i + 1)[0] == ds[0]);
        assert(ds.take(i)[0] == ds[0]);
        assert(ds.drop_first()[i - 1] == ds[i]);
    }
}

/// Splitting a procedure list splits its per-type count.
pub proof fn lemma_funcs_count_split(fs: Seq<FunctionDeclaration>, i: int, t: Type)
    requires
        0 <= i <= fs.len(),
    ensures
        funcs_count(fs, t) == funcs_count(fs.take(i), t) + funcs_count(fs.skip(i), t),
    decreases i,
{
    if i == 0 {
        assert(fs.take(0) =~= Seq::<FunctionDeclaration>::empty());
        assert(fs.skip(0) =~= fs);
    } else {
        lemma_funcs_count_split(fs.drop_first(), i - 1, t);
        assert(fs.take(i).drop_first() =~= fs.drop_first().take(i - 1));
        assert(fs.skip(i) =~= fs.drop_first().skip(i - 1));
        assert(funcs_count(fs.take(i), t) == func_count(fs.take(i)[0], t) + funcs_count(
            fs.take(i).drop_first(),
            t,
        ));
    }
}

/// The count of a one-longer procedure prefix adds the next procedure.
pub proof fn lemma_funcs_count_take_step(fs: Seq<FunctionDeclaration>, i: int, t: Type)
    requires
        0 <= i < fs.len(),
    ensures
        funcs_count(fs.take(i + 1), t) == funcs_count(fs.take(i), t) + func_count(fs[i], t),
    decreases i,
{
    if i == 0 {
        assert(fs.take(1).drop_first() =~= Seq::<FunctionDeclaration>::empty());
        assert(fs.take(0) =~= Seq::<FunctionDeclaration>::empty());
        assert(fs.take(1)[0] == fs[0]);
    } else {
        lemma_funcs_count_take_step(fs.drop_first(), i - 1, t);
        assert(fs.take(i + 1).drop_first() =~= fs.drop_first().take(i));
        assert(fs.take(i).drop_first() =~= fs.drop_first().take(i - 1));
        assert(fs.take(i + 1)[0] == fs[0]);
        assert(fs.take(i)[0] == fs[0]);
        assert(fs.drop_first()[i - 1] == fs[i]);
    }
}

/// The typed addresses a local-variable list holds.
pub open spec fn locals_typed(ls: Seq<(String, VariableInfo)>) -> Seq<(Type, i32)> {
    ls.map_values(|l: (String, VariableInfo)| (l.1.var_type, l.1.address))
}

/// The typed addresses a parameter list holds.
pub open spec fn params_typed(ps: Seq<(String, Type, i32)>) -> Seq<(Type, i32)> {
    ps.map_values(|p: (String, Type, i32)| (p.1, p.2))
}

/// Some declared name also appears among the built parameters.
pub open spec fn decls_hit_params(
    ds: Seq<VarDeclaration>,
    ps: Seq<(String, Type, i32)>,
) -> bool {
    exists|i: int, j: int| 0 <= i < ds.len() && 0 <= j < ps.len() && ds[i].id@ == ps[j].0@
}

/// The assignment-compatibility rule: identical types are valid and `Int`
/// may widen into `Float`; those are the only legal assignment coercions.
/// (The engine additionally converts between booleans and integers at its
/// own layer, for true/false literal propagation — that is a storage
/// conversion, not assignment compatibility.)
pub open spec fn valid_assignment(target: Type, value: Type) -> bool {
    match (target, value) {
        (Type::Int, Type::Int) => true,
        (Type::Float, Type::Float) => true,
        (Type::Float, Type::Int) => true,
        (Type::Bool, Type::Bool) => true,
        _ => false,
    }
}

/// Address assignment is strictly sequential per type: every declaration's
/// address is its type's segment base plus the number of declarations of
/// the same type processed before it — globals first, then each declared
/// procedure's parameters and locals, in source order.
pub open spec fn addresses_sequential(d: FunctionDirectory, p: Program) -> bool {
    &&& forall|k: int|
        0 <= k < p.vars@.len() ==> (#[trigger] d.functions@[1].1.local_variables@[k]).1.address
            == seg_start(p.vars@[k].var_type) + decls_count(p.vars@.take(k), p.vars@[k].var_type)
    &&& forall|f: int, k: int|
        0 <= f < p.funcs@.len() && 0 <= k < p.funcs@[f].parameters@.len() ==> (#[trigger] d.functions@[3
            + f].1.parameters@[k]).2 == seg_start(p.funcs@[f].parameters@[k].param_type)
            + decls_count(p.vars@, p.funcs@[f].parameters@[k].param_type) + funcs_count(
            p.funcs@.take(f),
            p.funcs@[f].parameters@[k].param_type,
        ) + params_count(
            p.funcs@[f].parameters@.take(k),
            p.funcs@[f].parameters@[k].param_type,
        )
    &&& forall|f: int, k: int|
        0 <= f < p.funcs@.len() && 0 <= k < p.funcs@[f].vars@.len() ==> (#[trigger] d.functions@[3
            + f].1.local_variables@[k]).1.address == seg_start(p.funcs@[f].vars@[k].var_type)
            + decls_count(p.vars@, p.funcs@[f].vars@[k].var_type) + funcs_count(
            p.funcs@.take(f),
            p.funcs@[f].vars@[k].var_type,
        ) + params_count(p.funcs@[f].parameters@, p.funcs@[f].vars@[k].var_type) + decls_count(
            p.funcs@[f].vars@.take(k),
            p.funcs@[f].vars@[k].var_type,
        )
}

/// The directory a program builds: the program marker, the `global` scope
/// holding the globals, the `main` scope, then each declared procedure in
/// source order, names and types as declared.
pub open spec fn built_from(d: FunctionDirectory, p: Program) -> bool {
    &&& d.functions@.len() == 3 + p.funcs@.len()
    &&& d.functions@[0].0@ == p.id@
    &&& d.functions@[0].1.is_program
    &&& d.functions@[0].1.parameters@.len() == 0
    &&& d.functions@[0].1.local_variables@.len() == 0
    &&& d.functions@[0].1.start_quad_idx is None
    &&& d.functions@[1].0@ == "global"@
    &&& !d.functions@[1].1.is_program
    &&& d.functions@[1].1.parameters@.len() == 0
    &&& locals_match(d.functions@[1].1.local_variables@, p.vars@)
    &&& d.functions@[1].1.start_quad_idx is None
    &&& d.functions@[2].0@ == "main"@
    &&& !d.functions@[2].1.is_program
    &&& d.functions@[2].1.parameters@.len() == 0
    &&& d.functions@[2].1.local_variables@.len() == 0
    &&& d.functions@[2].1.start_quad_idx is None
    &&& forall|k: int|
        0 <= k < p.funcs@.len() ==> {
            let e = #[trigger] d.functions@[3 + k];
            &&& e.0@ == p.funcs@[k].id@
            &&& !e.1.is_program
            &&& e.1.start_quad_idx is None
            &&& params_match(e.1.parameters@, p.funcs@[k].parameters@)
            &&& locals_match(e.1.local_variables@, p.funcs@[k].vars@)
        }
}

impl FunctionDirectory {
    /// An empty directory with the counters at their segment bases.
    pub fn new() -> (d: FunctionDirectory)
        ensures
            dir_wf(d),
            d.functions@.len() == 0,
            d.int_counter == MemoryAddresses::INT_START,
            d.float_counter == MemoryAddresses::FLOAT_START,
            d.bool_counter == MemoryAddresses::BOOL_START,
    {
        FunctionDirectory {
            functions: Vec::new(),
            int_counter: MemoryAddresses::INT_START,
            float_counter: MemoryAddresses::FLOAT_START,
            bool_counter: MemoryAddresses::BOOL_START,
        }
    }

    /// Hands out the next address of the type's variable segment and bumps
    /// that type's counter; addresses are never reused.
    fn get_next_address(&mut self, var_type: &Type) -> (a: i32)
        requires
            counter_of(
                *var_type,
                old(self).int_counter,
                old(self).float_counter,
                old(self).bool_counter,
            ) < seg_end(*var_type),
        ensures
            a == counter_of(
                *var_type,
                old(self).int_counter,
                old(self).float_counter,
                old(self).bool_counter,
            ),
            counter_of(
                *var_type,
                final(self).int_counter,
                final(self).float_counter,
                final(self).bool_counter,
            ) == a + 1,
            final(self).functions == old(self).functions,
            forall|t: Type|
                t != *var_type ==> counter_of(
                    t,
                    final(self).int_counter,
                    final(self).float_counter,
                    final(self).bool_counter,
                ) == counter_of(
                    t,
                    old(self).int_counter,
                    old(self).float_counter,
                    old(self).bool_counter,
                ),
    {
        match var_type {
            Type::Int => {
                let addr = self.int_counter;
                self.int_counter = self.int_counter + 1;
                addr
            },
            Type::Float => {
                let addr = self.float_counter;
                self.float_counter = self.float_counter + 1;
                addr
            },
            Type::Bool => {
                let addr = self.bool_counter;
                self.bool_counter = self.bool_counter + 1;
                addr
            },
        }
    }

    /// Assigns addresses to declared parameters in declaration order,
    /// rejecting a name already used by an earlier parameter.
    fn build_params(&mut self, decls: &Vec<Parameter>) -> (r: Result<
        Vec<(String, Type, i32)>,
        String,
    >)
        requires
            seg_start(Type::Int) <= old(self).int_counter,
            seg_start(Type::Float) <= old(self).float_counter,
            seg_start(Type::Bool) <= old(self).bool_counter,
            old(self).int_counter + params_count(decls@, Type::Int) <= seg_end(Type::Int),
            old(self).float_counter + params_count(decls@, Type::Float) <= seg_end(Type::Float),
            old(self).bool_counter + params_count(decls@, Type::Bool) <= seg_end(Type::Bool),
        ensures
            final(self).functions == old(self).functions,
            final(self).int_counter >= old(self).int_counter,
            final(self).float_counter >= old(self).float_counter,
            final(self).bool_counter >= old(self).bool_counter,
            final(self).int_counter <= old(self).int_counter + params_count(decls@, Type::Int),
            final(self).float_counter <= old(self).float_counter + params_count(
                decls@,
                Type::Float,
            ),
            final(self).bool_counter <= old(self).bool_counter + params_count(decls@, Type::Bool),
            r is Ok <==> !param_decls_have_dup(decls@),
            match r {
                Ok(ps) => {
                    &&& params_match(ps@, decls@)
                    &&& param_names_unique(ps@)
                    &&& distinct_addrs(params_typed(ps@))
                    &&& forall|k: int|
                        0 <= k < ps@.len() ==> (#[trigger] ps@[k]).2 == counter_of(
                            decls@[k].param_type,
                            old(self).int_counter,
                            old(self).float_counter,
                            old(self).bool_counter,
                        ) + params_count(decls@.take(k), decls@[k].param_type)
                    &&& forall|k: int|
                        0 <= k < ps@.len() ==> typed_addr_ok(
                            #[trigger] params_typed(ps@)[k].0,
                            params_typed(ps@)[k].1,
                        ) && params_typed(ps@)[k].1 >= counter_of(
                            params_typed(ps@)[k].0,
                            old(self).int_counter,
                            old(self).float_counter,
                            old(self).bool_counter,
                        ) && params_typed(ps@)[k].1 < counter_of(
                            params_typed(ps@)[k].0,
                            final(self).int_counter,
                            final(self).float_counter,
                            final(self).bool_counter,
                        )
                    &&& final(self).int_counter == old(self).int_counter + params_count(
                        decls@,
                        Type::Int,
                    )
                    &&& final(self).float_counter == old(self).float_counter + params_count(
                        decls@,
                        Type::Float,
                    )
                    &&& final(self).bool_counter == old(self).bool_counter + params_count(
                        decls@,
                        Type::Bool,
                    )
                },
                Err(name) => exists|i: int, j: int|
                    0 <= i < j < decls@.len() && decls@[i].id@ == decls@[j].id@ && decls@[j].id@
                        == name@,
            },
    {
        let ghost ic0 = self.int_counter;
        let ghost fc0 = self.float_counter;
        let ghost bc0 = self.bool_counter;
        let mut out: Vec<(String, Type, i32)> = Vec::new();
        let n = decls.len();
        let mut i: usize = 0;
        while i < n
            invariant
                0 <= i <= n,
                n == decls@.len(),
                ic0 == old(self).int_counter,
                fc0 == old(self).float_counter,
                bc0 == old(self).bool_counter,
                seg_start(Type::Int) <= ic0,
                seg_start(Type::Float) <= fc0,
                seg_start(Type::Bool) <= bc0,
                ic0 + params_count(decls@, Type::Int) <= seg_end(Type::Int),
                fc0 + params_count(decls@, Type::Float) <= seg_end(Type::Float),
                bc0 + params_count(decls@, Type::Bool) <= seg_end(Type::Bool),
                self.functions == old(self).functions,
                self.int_counter == ic0 + params_count(decls@.take(i as int), Type::Int),
                self.float_counter == fc0 + params_count(decls@.take(i as int), Type::Float),
                self.bool_counter == bc0 + params_count(decls@.take(i as int), Type::Bool),
                params_match(out@, decls@.take(i as int)),
                param_names_unique(out@),
                distinct_addrs(params_typed(out@)),
                forall|k: int|
                    0 <= k < out@.len() ==> (#[trigger] out@[k]).2 == counter_of(
                        decls@[k].param_type,
                        ic0,
                        fc0,
                        bc0,
                    ) + params_count(decls@.take(k), decls@[k].param_type),
                forall|k: int|
                    0 <= k < out@.len() ==> typed_addr_ok(
                        #[trigger] params_typed(out@)[k].0,
                        params_typed(out@)[k].1,
                    ) && params_typed(out@)[k].1 >= counter_of(
                        params_typed(out@)[k].0,
                        ic0,
                        fc0,
                        bc0,
                    ) && params_typed(out@)[k].1 < counter_of(
                        params_typed(out@)[k].0,
                        self.int_counter,
                        self.float_counter,
                        self.bool_counter,
                    ),
                !param_decls_have_dup(decls@.take(i as int)),
            decreases n - i,
        {
            let decl = &decls[i];
            match position_of_param(&out, decl.id.as_str()) {
                Some(j) => {
                    proof {
                        let tk = decls@.take(i as int);
                        assert(tk[j as int].id@ == decls@[i as int].id@);
                        assert(decls@[j as int].id@ == decls@[i as int].id@);
                    }
                    proof {
                        lemma_params_count_split(decls@, i as int, Type::Int);
                        lemma_params_count_split(decls@, i as int, Type::Float);
                        lemma_params_count_split(decls@, i as int, Type::Bool);
                    }
                    return Err(decl.id.clone());
                },
                None => {},
            }
            proof {
                lemma_find_param_none_no_match(out@, decl.id@);
                lemma_params_count_take_step(decls@, i as int, Type::Int);
                lemma_params_count_take_step(decls@, i as int, Type::Float);
                lemma_params_count_take_step(decls@, i as int, Type::Bool);
                lemma_params_count_split(decls@, i as int, decl.param_type);
                assert(decls@.skip(i as int)[0] == decls@[i as int]);
                assert(decls@.skip(i as int).drop_first() =~= decls@.skip(i + 1));
                assert(params_count(decls@.skip(i as int), decl.param_type) >= 1);
            }
            let t = decl.param_type;
            let ghost ci = self.int_counter;
            let ghost cf = self.float_counter;
            let ghost cb = self.bool_counter;
            let addr = self.get_next_address(&t);
            let ghost prev = out@;
            out.push((decl.id.clone(), t, addr));
            proof {
                assert(counter_of(t, self.int_counter, self.float_counter, self.bool_counter)
                    == addr + 1);
                assert(t != Type::Int ==> counter_of(
                    Type::Int,
                    self.int_counter,
                    self.float_counter,
                    self.bool_counter,
                ) == counter_of(Type::Int, ci, cf, cb));
                assert(t != Type::Float ==> counter_of(
                    Type::Float,
                    self.int_counter,
                    self.float_counter,
                    self.bool_counter,
                ) == counter_of(Type::Float, ci, cf, cb));
                assert(t != Type::Bool ==> counter_of(
                    Type::Bool,
                    self.int_counter,
                    self.float_counter,
                    self.bool_counter,
                ) == counter_of(Type::Bool, ci, cf, cb));
                assert(self.int_counter == ic0 + params_count(decls@.take(i + 1), Type::Int));
                assert(self.float_counter == fc0 + params_count(decls@.take(i + 1), Type::Float));
                assert(self.bool_counter == bc0 + params_count(decls@.take(i + 1), Type::Bool));
                assert(out@.drop_last() =~= prev);
                assert(params_typed(out@) =~= params_typed(prev).push((t, addr)));
                assert(params_match(out@, decls@.take(i + 1)));
                assert(typed_addrs_ok(params_typed(prev), ci, cf, cb));
                lemma_distinct_append(params_typed(prev), seq![(t, addr)], ci, cf, cb);
                assert(params_typed(prev) + seq![(t, addr)] =~= params_typed(out@));
                assert forall|k: int| 0 <= k < out@.len() implies typed_addr_ok(
                    #[trigger] params_typed(out@)[k].0,
                    params_typed(out@)[k].1,
                ) && params_typed(out@)[k].1 >= counter_of(
                    params_typed(out@)[k].0,
                    ic0,
                    fc0,
                    bc0,
                ) && params_typed(out@)[k].1 < counter_of(
                    params_typed(out@)[k].0,
                    self.int_counter,
                    self.float_counter,
                    self.bool_counter,
                ) by {
                    if k < out@.len() - 1 {
                        assert(params_typed(out@)[k] == params_typed(prev)[k]);
                        assert(typed_addr_ok(params_typed(prev)[k].0, params_typed(prev)[k].1)
                            && params_typed(prev)[k].1 >= counter_of(
                            params_typed(prev)[k].0,
                            ic0,
                            fc0,
                            bc0,
                        ) && params_typed(prev)[k].1 < counter_of(params_typed(prev)[k].0, ci, cf, cb));
                    } else {
                        assert(params_typed(out@)[k] == (t, addr));
                    }
                }
                assert forall|a: int, b: int|
                    0 <= a < b < decls@.take(i + 1).len() implies (#[trigger] decls@.take(i + 1)[a]).id@
                    != (#[trigger] decls@.take(i + 1)[b]).id@ by {
                    assert(decls@.take(i + 1)[a] == decls@[a]);
                    assert(decls@.take(i + 1)[b] == decls@[b]);
                    if b < i {
                        assert(decls@.take(i as int)[a] == decls@[a]);
                        assert(decls@.take(i as int)[b] == decls@[b]);
                        assert(!(decls@.take(i as int)[a].id@ == decls@.take(i as int)[b].id@));
                    } else {
                        assert(prev[a].0@ == decls@.take(i as int)[a].id@);
                        assert(prev[a].0@ != decl.id@);
                    }
                }
                assert(!param_decls_have_dup(decls@.take(i + 1)));
            }
            i = i + 1;
        }
        proof {
            assert(decls@.take(n as int) =~= decls@);
        }
        Ok(out)
    }

    /// Assigns addresses to a run of variable declarations, rejecting a
    /// name already used in the run or among the given parameters. The
    /// error carries the name and whether it collided with a parameter.
    fn build_locals(&mut self, decls: &Vec<VarDeclaration>, params: &Vec<(String, Type, i32)>) -> (r:
        Result<Vec<(String, VariableInfo)>, (String, bool)>)
        requires
            seg_start(Type::Int) <= old(self).int_counter,
            seg_start(Type::Float) <= old(self).float_counter,
            seg_start(Type::Bool) <= old(self).bool_counter,
            old(self).int_counter + decls_count(decls@, Type::Int) <= seg_end(Type::Int),
            old(self).float_counter + decls_count(decls@, Type::Float) <= seg_end(Type::Float),
            old(self).bool_counter + decls_count(decls@, Type::Bool) <= seg_end(Type::Bool),
        ensures
            final(self).functions == old(self).functions,
            final(self).int_counter >= old(self).int_counter,
            final(self).float_counter >= old(self).float_counter,
            final(self).bool_counter >= old(self).bool_counter,
            final(self).int_counter <= old(self).int_counter + decls_count(decls@, Type::Int),
            final(self).float_counter <= old(self).float_counter + decls_count(
                decls@,
                Type::Float,
            ),
            final(self).bool_counter <= old(self).bool_counter + decls_count(decls@, Type::Bool),
            r is Ok <==> !(decls_have_dup(decls@) || decls_hit_params(decls@, params@)),
            match r {
                Ok(ls) => {
                    &&& locals_match(ls@, decls@)
                    &&& names_unique(ls@)
                    &&& forall|k: int|
                        0 <= k < ls@.len() ==> (#[trigger] ls@[k]).1.address == counter_of(
                            decls@[k].var_type,
                            old(self).int_counter,
                            old(self).float_counter,
                            old(self).bool_counter,
                        ) + decls_count(decls@.take(k), decls@[k].var_type)
                    &&& forall|i: int, j: int|
                        0 <= i < ls@.len() && 0 <= j < params@.len() ==> (#[trigger] ls@[i]).0@
                            != (#[trigger] params@[j]).0@
                    &&& distinct_addrs(locals_typed(ls@))
                    &&& forall|k: int|
                        0 <= k < ls@.len() ==> typed_addr_ok(
                            #[trigger] locals_typed(ls@)[k].0,
                            locals_typed(ls@)[k].1,
                        ) && locals_typed(ls@)[k].1 >= counter_of(
                            locals_typed(ls@)[k].0,
                            old(self).int_counter,
                            old(self).float_counter,
                            old(self).bool_counter,
                        ) && locals_typed(ls@)[k].1 < counter_of(
                            locals_typed(ls@)[k].0,
                            final(self).int_counter,
                            final(self).float_counter,
                            final(self).bool_counter,
                        )
                    &&& final(self).int_counter == old(self).int_counter + decls_count(
                        decls@,
                        Type::Int,
                    )
                    &&& final(self).float_counter == old(self).float_counter + decls_count(
                        decls@,
                        Type::Float,
                    )
                    &&& final(self).bool_counter == old(self).bool_counter + decls_count(
                        decls@,
                        Type::Bool,
                    )
                },
                Err((name, hit_param)) => {
                    if hit_param {
                        exists|i: int, j: int|
                            0 <= i < decls@.len() && 0 <= j < params@.len() && decls@[i].id@
                                == params@[j].0@ && decls@[i].id@ == name@
                    } else {
                        exists|i: int, j: int|
                            0 <= i < j < decls@.len() && decls@[i].id@ == decls@[j].id@
                                && decls@[j].id@ == name@
                    }
                },
            },
    {
        let ghost ic0 = self.int_counter;
        let ghost fc0 = self.float_counter;
        let ghost bc0 = self.bool_counter;
        let mut out: Vec<(String, VariableInfo)> = Vec::new();
        let n = decls.len();
        let mut i: usize = 0;
        while i < n
            invariant
                0 <= i <= n,
                n == decls@.len(),
                ic0 == old(self).int_counter,
                fc0 == old(self).float_counter,
                bc0 == old(self).bool_counter,
                seg_start(Type::Int) <= ic0,
                seg_start(Type::Float) <= fc0,
                seg_start(Type::Bool) <= bc0,
                ic0 + decls_count(decls@, Type::Int) <= seg_end(Type::Int),
                fc0 + decls_count(decls@, Type::Float) <= seg_end(Type::Float),
                bc0 + decls_count(decls@, Type::Bool) <= seg_end(Type::Bool),
                self.functions == old(self).functions,
                self.int_counter == ic0 + decls_count(decls@.take(i as int), Type::Int),
                self.float_counter == fc0 + decls_count(decls@.take(i as int), Type::Float),
                self.bool_counter == bc0 + decls_count(decls@.take(i as int), Type::Bool),
                locals_match(out@, decls@.take(i as int)),
                names_unique(out@),
                forall|k: int|
                    0 <= k < out@.len() ==> (#[trigger] out@[k]).1.address == counter_of(
                        decls@[k].var_type,
                        ic0,
                        fc0,
                        bc0,
                    ) + decls_count(decls@.take(k), decls@[k].var_type),
                forall|a: int, b: int|
                    0 <= a < out@.len() && 0 <= b < params@.len() ==> (#[trigger] out@[a]).0@
                        != (#[trigger] params@[b]).0@,
                distinct_addrs(locals_typed(out@)),
                forall|k: int|
                    0 <= k < out@.len() ==> typed_addr_ok(
                        #[trigger] locals_typed(out@)[k].0,
                        locals_typed(out@)[k].1,
                    ) && locals_typed(out@)[k].1 >= counter_of(
                        locals_typed(out@)[k].0,
                        ic0,
                        fc0,
                        bc0,
                    ) && locals_typed(out@)[k].1 < counter_of(
                        locals_typed(out@)[k].0,
                        self.int_counter,
                        self.float_counter,
                        self.bool_counter,
                    ),
                !decls_have_dup(decls@.take(i as int)),
                !decls_hit_params(decls@.take(i as int), params@),
            decreases n - i,
        {
            let decl = &decls[i];
            match position_of_name(&out, decl.id.as_str()) {
                Some(j) => {
                    proof {
                        let tk = decls@.take(i as int);
                        assert(tk[j as int].id@ == decls@[i as int].id@);
                        assert(decls@[j as int].id@ == decls@[i as int].id@);
                    }
                    proof {
                        lemma_decls_count_split(decls@, i as int, Type::Int);
                        lemma_decls_count_split(decls@, i as int, Type::Float);
                        lemma_decls_count_split(decls@, i as int, Type::Bool);
                    }
                    return Err((decl.id.clone(), false));
                },
                None => {},
            }
            match position_of_param(params, decl.id.as_str()) {
                Some(j) => {
                    proof {
                        lemma_decls_count_split(decls@, i as int, Type::Int);
                        lemma_decls_count_split(decls@, i as int, Type::Float);
                        lemma_decls_count_split(decls@, i as int, Type::Bool);
                    }
                    return Err((decl.id.clone(), true));
                },
                None => {},
            }
            proof {
                lemma_find_none_no_match(out@, decl.id@);
                lemma_find_param_none_no_match(params@, decl.id@);
                lemma_decls_count_take_step(decls@, i as int, Type::Int);
                lemma_decls_count_take_step(decls@, i as int, Type::Float);
                lemma_decls_count_take_step(decls@, i as int, Type::Bool);
                lemma_decls_count_split(decls@, i as int, decl.var_type);
                assert(decls@.skip(i as int)[0] == decls@[i as int]);
                assert(decls@.skip(i as int).drop_first() =~= decls@.skip(i + 1));
                assert(decls_count(decls@.skip(i as int), decl.var_type) >= 1);
            }
            let t = decl.var_type;
            let ghost ci = self.int_counter;
            let ghost cf = self.float_counter;
            let ghost cb = self.bool_counter;
            let addr = self.get_next_address(&t);
            let ghost prev = out@;
            out.push((decl.id.clone(), VariableInfo { var_type: t, address: addr }));
            proof {
                assert(counter_of(t, self.int_counter, self.float_counter, self.bool_counter)
                    == addr + 1);
                assert(t != Type::Int ==> counter_of(
                    Type::Int,
                    self.int_counter,
                    self.float_counter,
                    self.bool_counter,
                ) == counter_of(Type::Int, ci, cf, cb));
                assert(t != Type::Float ==> counter_of(
                    Type::Float,
                    self.int_counter,
                    self.float_counter,
                    self.bool_counter,
                ) == counter_of(Type::Float, ci, cf, cb));
                assert(t != Type::Bool ==> counter_of(
                    Type::Bool,
                    self.int_counter,
                    self.float_counter,
                    self.bool_counter,
                ) == counter_of(Type::Bool, ci, cf, cb));
                assert(self.int_counter == ic0 + decls_count(decls@.take(i + 1), Type::Int));
                assert(self.float_counter == fc0 + decls_count(decls@.take(i + 1), Type::Float));
                assert(self.bool_counter == bc0 + decls_count(decls@.take(i + 1), Type::Bool));
                assert(out@.drop_last() =~= prev);
                assert(locals_typed(out@) =~= locals_typed(prev).push((t, addr)));
                assert(locals_match(out@, decls@.take(i + 1)));
                assert(typed_addrs_ok(locals_typed(prev), ci, cf, cb));
                lemma_distinct_append(locals_typed(prev), seq![(t, addr)], ci, cf, cb);
                assert(locals_typed(prev) + seq![(t, addr)] =~= locals_typed(out@));
                assert forall|k: int| 0 <= k < out@.len() implies typed_addr_ok(
                    #[trigger] locals_typed(out@)[k].0,
                    locals_typed(out@)[k].1,
                ) && locals_typed(out@)[k].1 >= counter_of(
                    locals_typed(out@)[k].0,
                    ic0,
                    fc0,
                    bc0,
                ) && locals_typed(out@)[k].1 < counter_of(
                    locals_typed(out@)[k].0,
                    self.int_counter,
                    self.float_counter,
                    self.bool_counter,
                ) by {
                    if k < out@.len() - 1 {
                        assert(locals_typed(out@)[k] == locals_typed(prev)[k]);
                        assert(typed_addr_ok(locals_typed(prev)[k].0, locals_typed(prev)[k].1)
                            && locals_typed(prev)[k].1 >= counter_of(
                            locals_typed(prev)[k].0,
                            ic0,
                            fc0,
                            bc0,
                        ) && locals_typed(prev)[k].1 < counter_of(locals_typed(prev)[k].0, ci, cf, cb));
                    } else {
                        assert(locals_typed(out@)[k] == (t, addr));
                    }
                }
                assert forall|a: int, b: int|
                    0 <= a < b < decls@.take(i + 1).len() implies (#[trigger] decls@.take(i + 1)[a]).id@
                    != (#[trigger] decls@.take(i + 1)[b]).id@ by {
                    assert(decls@.take(i + 1)[a] == decls@[a]);
                    assert(decls@.take(i + 1)[b] == decls@[b]);
                    if b < i {
                        assert(decls@.take(i as int)[a] == decls@[a]);
                        assert(decls@.take(i as int)[b] == decls@[b]);
                        assert(!(decls@.take(i as int)[a].id@ == decls@.take(i as int)[b].id@));
                    } else {
                        assert(prev[a].0@ == decls@.take(i as int)[a].id@);
                        assert(prev[a].0@ != decl.id@);
                    }
                }
                assert(!decls_have_dup(decls@.take(i + 1)));
                assert forall|a: int, b: int|
                    0 <= a < decls@.take(i + 1).len() && 0 <= b < params@.len()
                    implies (#[trigger] decls@.take(i + 1)[a]).id@ != (#[trigger] params@[b]).0@ by {
                    assert(decls@.take(i + 1)[a] == decls@[a]);
                    if a < i {
                        assert(decls@.take(i as int)[a] == decls@[a]);
                    }
                }
                assert(!decls_hit_params(decls@.take(i + 1), params@));
            }
            i = i + 1;
        }
        proof {
            assert(decls@.take(n as int) =~= decls@);
        }
        Ok(out)
    }

    /// Adds one procedure to the directory, assigning parameter and local
    /// addresses in declaration order. Fails exactly when the procedure's
    /// name is already a scope, two parameters or two locals share a name,
    /// or a local reuses a parameter's name.
    pub fn add_function(&mut self, func: &FunctionDeclaration) -> (r: Result<(), FunctionDirError>)
        requires
            dir_wf(*old(self)),
            old(self).int_counter + func_count(*func, Type::Int) <= seg_end(Type::Int),
            old(self).float_counter + func_count(*func, Type::Float) <= seg_end(Type::Float),
            old(self).bool_counter + func_count(*func, Type::Bool) <= seg_end(Type::Bool),
        ensures
            dir_wf(*final(self)),
            r is Ok <==> !(has_name(old(self).functions@, func.id@) || func_has_collision(*func)),
            final(self).int_counter >= old(self).int_counter,
            final(self).float_counter >= old(self).float_counter,
            final(self).bool_counter >= old(self).bool_counter,
            final(self).int_counter <= old(self).int_counter + func_count(*func, Type::Int),
            final(self).float_counter <= old(self).float_counter + func_count(*func, Type::Float),
            final(self).bool_counter <= old(self).bool_counter + func_count(*func, Type::Bool),
            match r {
                Ok(_) => {
                    &&& final(self).functions@.len() == old(self).functions@.len() + 1
                    &&& final(self).functions@.subrange(0, old(self).functions@.len() as int)
                        == old(self).functions@
                    &&& final(self).functions@.last().0@ == func.id@
                    &&& !final(self).functions@.last().1.is_program
                    &&& final(self).functions@.last().1.start_quad_idx is None
                    &&& params_match(
                        final(self).functions@.last().1.parameters@,
                        func.parameters@,
                    )
                    &&& locals_match(final(self).functions@.last().1.local_variables@, func.vars@)
                    &&& forall|k: int|
                        0 <= k < func.parameters@.len() ==> (#[trigger] final(self).functions@.last().1.parameters@[k]).2 == counter_of(
                            func.parameters@[k].param_type,
                            old(self).int_counter,
                            old(self).float_counter,
                            old(self).bool_counter,
                        ) + params_count(func.parameters@.take(k), func.parameters@[k].param_type)
                    &&& forall|k: int|
                        0 <= k < func.vars@.len() ==> (#[trigger] final(self).functions@.last().1.local_variables@[k]).1.address == counter_of(
                            func.vars@[k].var_type,
                            old(self).int_counter,
                            old(self).float_counter,
                            old(self).bool_counter,
                        ) + params_count(func.parameters@, func.vars@[k].var_type) + decls_count(
                            func.vars@.take(k),
                            func.vars@[k].var_type,
                        )
                    &&& final(self).int_counter == old(self).int_counter + func_count(
                        *func,
                        Type::Int,
                    )
                    &&& final(self).float_counter == old(self).float_counter + func_count(
                        *func,
                        Type::Float,
                    )
                    &&& final(self).bool_counter == old(self).bool_counter + func_count(
                        *func,
                        Type::Bool,
                    )
                },
                Err(e) => final(self).functions@ == old(self).functions@ && (match e {
                    FunctionDirError::DuplicateFunction(n) => n@ == func.id@ && has_name(
                        old(self).functions@,
                        func.id@,
                    ),
                    FunctionDirError::DuplicateVariable(n, sc) => {
                        &&& !has_name(old(self).functions@, func.id@)
                        &&& (sc@ == "function "@ + func.id@ + " parameters"@ && (exists|
                            i: int,
                            j: int,
                        |
                            0 <= i < j < func.parameters@.len() && (
                            #[trigger] func.parameters@[i]).id@ == (
                            #[trigger] func.parameters@[j]).id@ && func.parameters@[j].id@ == n@))
                            || (sc@ == func.id@ && (exists|i: int, j: int|
                            0 <= i < j < func.vars@.len() && (#[trigger] func.vars@[i]).id@ == (
                            #[trigger] func.vars@[j]).id@ && func.vars@[j].id@ == n@)) || (sc@
                            == "function "@ + func.id@ + " (parameter conflict)"@ && (exists|
                            i: int,
                            j: int,
                        |
                            0 <= i < func.vars@.len() && 0 <= j < func.parameters@.len() && (
                            #[trigger] func.vars@[i]).id@ == (#[trigger] func.parameters@[j]).id@
                                && func.vars@[i].id@ == n@))
                    },
                }),
            },
    {
        match position_of_name(&self.functions, func.id.as_str()) {
            Some(_) => {
                return Err(FunctionDirError::DuplicateFunction(func.id.clone()));
            },
            None => {},
        }
        proof {
            lemma_find_none_no_match(self.functions@, func.id@);
        }
        let params = match self.build_params(&func.parameters) {
            Ok(p) => p,
            Err(name) => {
                let mut sc = String::from_str("function ");
                sc.append(func.id.as_str());
                sc.append(" parameters");
                return Err(FunctionDirError::DuplicateVariable(name, sc));
            },
        };
        let ghost mid_ic = self.int_counter;
        let ghost mid_fc = self.float_counter;
        let ghost mid_bc = self.bool_counter;
        let ghost pv = params@;
        let locals = match self.build_locals(&func.vars, &params) {
            Ok(l) => l,
            Err((name, hit_param)) => {
                proof {
                    if decls_hit_params(func.vars@, pv) {
                        let (a, b) = choose|a: int, b: int|
                            0 <= a < func.vars@.len() && 0 <= b < pv.len() && func.vars@[a].id@
                                == pv[b].0@;
                        assert(pv[b].0@ == func.parameters@[b].id@);
                        assert(func.vars@[a].id@ == func.parameters@[b].id@);
                        assert(local_hits_param(*func));
                    }
                }
                let sc = if hit_param {
                    let mut sc = String::from_str("function ");
                    sc.append(func.id.as_str());
                    sc.append(" (parameter conflict)");
                    sc
                } else {
                    func.id.clone()
                };
                return Err(FunctionDirError::DuplicateVariable(name, sc));
            },
        };
        proof {
            if local_hits_param(*func) {
                let (a, b) = choose|a: int, b: int|
                    0 <= a < func.vars@.len() && 0 <= b < func.parameters@.len() && func.vars@[a].id@
                        == func.parameters@[b].id@;
                assert(pv[b].0@ == func.parameters@[b].id@);
                assert(func.vars@[a].id@ == pv[b].0@);
                assert(decls_hit_params(func.vars@, pv));
            }
        }
        let ghost params_view = params@;
        let ghost locals_view = locals@;
        let info = FunctionInfo {
            return_type: None,
            parameters: params,
            local_variables: locals,
            is_program: false,
            start_quad_idx: None,
        };
        let ghost before = self.functions@;
        let ghost ic0 = old(self).int_counter;
        let ghost fc0 = old(self).float_counter;
        let ghost bc0 = old(self).bool_counter;
        self.functions.push((func.id.clone(), info));
        proof {
            let entry = self.functions@.last();
            assert(self.functions@.drop_last() =~= before);
            assert(self.functions@.subrange(0, before.len() as int) =~= before);
            lemma_all_typed_addrs_push(before, entry);
            let new_typed = fn_typed_addrs(entry.1);
            assert(new_typed =~= params_typed(params_view) + locals_typed(locals_view));
            // Names stay unique: the new name matched no existing entry.
            assert forall|i: int, j: int|
                0 <= i < j < self.functions@.len() implies (#[trigger] self.functions@[i]).0@
                != (#[trigger] self.functions@[j]).0@ by {
                if j < before.len() {
                    assert(self.functions@[i] == before[i]);
                    assert(self.functions@[j] == before[j]);
                    assert(names_unique(before));
                } else {
                    assert(self.functions@[i] == before[i]);
                }
            }
            // Each scope remains well formed; the new one is by construction.
            assert forall|k: int| 0 <= k < self.functions@.len() implies fn_wf(
                (#[trigger] self.functions@[k]).1,
            ) by {
                if k < before.len() {
                    assert(self.functions@[k] == before[k]);
                    assert(fn_wf(before[k].1));
                }
            }
            // The new addresses are fresh: at or above the entry counters.
            assert forall|k: int|
                0 <= k < new_typed.len() implies typed_addr_ok(
                (#[trigger] new_typed[k]).0,
                new_typed[k].1,
            ) && new_typed[k].1 >= counter_of(new_typed[k].0, ic0, fc0, bc0) && new_typed[k].1
                < counter_of(
                new_typed[k].0,
                self.int_counter,
                self.float_counter,
                self.bool_counter,
            ) by {
                if k < params_view.len() {
                    assert(new_typed[k] == params_typed(params_view)[k]);
                } else {
                    assert(new_typed[k] == locals_typed(locals_view)[k - params_view.len()]);
                }
            }
            // Distinct within the new entry: locals start where parameters end.
            lemma_distinct_append(
                params_typed(params_view),
                locals_typed(locals_view),
                mid_ic,
                mid_fc,
                mid_bc,
            );
            assert(distinct_addrs(new_typed));
            // Distinct against everything already assigned.
            lemma_distinct_append(all_typed_addrs(before), new_typed, ic0, fc0, bc0);
            assert(all_typed_addrs(self.functions@) == all_typed_addrs(before) + new_typed);
            assert(typed_addrs_ok(
                all_typed_addrs(self.functions@),
                self.int_counter,
                self.float_counter,
                self.bool_counter,
            ));
        }
        Ok(())
    }

    /// Builds the directory from a whole program: the program marker entry,
    /// the global variables, the `main` entry, then every declared
    /// procedure in source order. Fails exactly when some name collides
    /// within its scope or two procedures share a name.
    pub fn from_program(program: &Program) -> (r: Result<FunctionDirectory, FunctionDirError>)
        requires
            program_fits(*program),
            program.id@ != "global"@,
            program.id@ != "main"@,
        ensures
            r is Ok <==> !program_collision(*program),
            match r {
                Ok(d) => dir_wf(d) && built_from(d, *program) && addresses_sequential(d, *program),
                Err(e) => match e {
                    FunctionDirError::DuplicateFunction(n) => exists|f: int|
                        0 <= f < program.funcs@.len() && (#[trigger] program.funcs@[f]).id@ == n@
                            && (n@ == program.id@ || n@ == "global"@ || n@ == "main"@ || exists|
                            g: int,
                        | 0 <= g < f && (#[trigger] program.funcs@[g]).id@ == n@),
                    FunctionDirError::DuplicateVariable(n, sc) => (sc@ == "global"@ && (exists|
                        i: int,
                        j: int,
                    |
                        0 <= i < j < program.vars@.len() && (#[trigger] program.vars@[i]).id@ == (
                        #[trigger] program.vars@[j]).id@ && program.vars@[j].id@ == n@)) || (exists|
                        f: int,
                    |
                        {
                            let fd = #[trigger] program.funcs@[f];
                            &&& 0 <= f < program.funcs@.len()
                            &&& ((sc@ == "function "@ + fd.id@ + " parameters"@ && (exists|
                                i: int,
                                j: int,
                            |
                                0 <= i < j < fd.parameters@.len() && (
                                #[trigger] fd.parameters@[i]).id@ == (
                                #[trigger] fd.parameters@[j]).id@ && fd.parameters@[j].id@ == n@))
                                || (sc@ == fd.id@ && (exists|i: int, j: int|
                                0 <= i < j < fd.vars@.len() && (#[trigger] fd.vars@[i]).id@ == (
                                #[trigger] fd.vars@[j]).id@ && fd.vars@[j].id@ == n@)) || (sc@
                                == "function "@ + fd.id@ + " (parameter conflict)"@ && (exists|
                                i: int,
                                j: int,
                            |
                                0 <= i < fd.vars@.len() && 0 <= j < fd.parameters@.len() && (
                                #[trigger] fd.vars@[i]).id@ == (#[trigger] fd.parameters@[j]).id@
                                    && fd.vars@[i].id@ == n@)))
                        }),
                },
            },
    {
        proof {
            reveal_strlit("global");
            reveal_strlit("main");
        }
        let mut directory = FunctionDirectory::new();
        directory.functions.push(
            (
                program.id.clone(),
                FunctionInfo {
                    return_type: None,
                    parameters: Vec::new(),
                    local_variables: Vec::new(),
                    is_program: true,
                    start_quad_idx: None,
                },
            ),
        );
        proof {
            let fs = directory.functions@;
            assert(fs.len() == 1);
            assert(fs.drop_first() =~= Seq::<(String, FunctionInfo)>::empty());
            assert(all_typed_addrs(fs.drop_first()) =~= Seq::<(Type, i32)>::empty());
            assert(fn_typed_addrs(fs[0].1) =~= Seq::<(Type, i32)>::empty());
            assert(all_typed_addrs(fs) =~= Seq::<(Type, i32)>::empty());
            assert(dir_wf(directory));
        }
        let no_params: Vec<(String, Type, i32)> = Vec::new();
        let global_vars = match directory.build_locals(&program.vars, &no_params) {
            Ok(g) => g,
            Err((name, _)) => {
                return Err(FunctionDirError::DuplicateVariable(name, String::from_str("global")));
            },
        };
        let ghost gv_view = global_vars@;
        directory.functions.push(
            (
                String::from_str("global"),
                FunctionInfo {
                    return_type: None,
                    parameters: Vec::new(),
                    local_variables: global_vars,
                    is_program: false,
                    start_quad_idx: None,
                },
            ),
        );
        directory.functions.push(
            (
                String::from_str("main"),
                FunctionInfo {
                    return_type: None,
                    parameters: Vec::new(),
                    local_variables: Vec::new(),
                    is_program: false,
                    start_quad_idx: None,
                },
            ),
        );
        proof {
            let fs = directory.functions@;
            let d1 = fs.drop_first();
            let d2 = d1.drop_first();
            let d3 = d2.drop_first();
            assert(fs.len() == 3);
            assert(d1[0] == fs[1]);
            assert(d2[0] == fs[2]);
            assert(d3 =~= Seq::<(String, FunctionInfo)>::empty());
            assert(all_typed_addrs(d3) =~= Seq::<(Type, i32)>::empty());
            assert(fn_typed_addrs(fs[0].1) =~= Seq::<(Type, i32)>::empty());
            assert(fn_typed_addrs(fs[1].1) =~= locals_typed(gv_view));
            assert(fn_typed_addrs(fs[2].1) =~= Seq::<(Type, i32)>::empty());
            assert(all_typed_addrs(d2) =~= Seq::<(Type, i32)>::empty());
            assert(all_typed_addrs(d1) =~= locals_typed(gv_view));
            assert(all_typed_addrs(fs) =~= locals_typed(gv_view));
            assert forall|k: int|
                0 <= k < program.vars@.len() implies (#[trigger] fs[1].1.local_variables@[k]).1.address
                == seg_start(program.vars@[k].var_type) + decls_count(
                program.vars@.take(k),
                program.vars@[k].var_type,
            ) by {
                assert(gv_view[k].1.address == counter_of(
                    program.vars@[k].var_type,
                    MemoryAddresses::INT_START,
                    MemoryAddresses::FLOAT_START,
                    MemoryAddresses::BOOL_START,
                ) + decls_count(program.vars@.take(k), program.vars@[k].var_type));
            }
            assert(names_unique(fs)) by {
                assert(fs[0].0@ == program.id@);
                assert(fs[1].0@ == "global"@);
                assert(fs[2].0@ == "main"@);
            }
            assert(fn_wf(fs[0].1));
            assert(fn_wf(fs[1].1));
            assert(fn_wf(fs[2].1));
            assert forall|k: int| 0 <= k < fs.len() implies fn_wf((#[trigger] fs[k]).1) by {}
            assert(typed_addrs_ok(
                all_typed_addrs(fs),
                directory.int_counter,
                directory.float_counter,
                directory.bool_counter,
            ));
            assert(dir_wf(directory));
        }
        let n = program.funcs.len();
        let mut i: usize = 0;
        proof {
            assert(program.funcs@.take(0) =~= Seq::<FunctionDeclaration>::empty());
        }
        while i < n
            invariant
                0 <= i <= n,
                n == program.funcs@.len(),
                program_fits(*program),
                program.id@ != "global"@,
                program.id@ != "main"@,
                "global"@ != "main"@,
                dir_wf(directory),
                directory.int_counter == seg_start(Type::Int) + decls_count(
                    program.vars@,
                    Type::Int,
                ) + funcs_count(program.funcs@.take(i as int), Type::Int),
                directory.float_counter == seg_start(Type::Float) + decls_count(
                    program.vars@,
                    Type::Float,
                ) + funcs_count(program.funcs@.take(i as int), Type::Float),
                directory.bool_counter == seg_start(Type::Bool) + decls_count(
                    program.vars@,
                    Type::Bool,
                ) + funcs_count(program.funcs@.take(i as int), Type::Bool),
                directory.functions@.len() == 3 + i,
                directory.functions@[0].0@ == program.id@,
                directory.functions@[0].1.is_program,
                directory.functions@[0].1.parameters@.len() == 0,
                directory.functions@[0].1.local_variables@.len() == 0,
                directory.functions@[0].1.start_quad_idx is None,
                directory.functions@[1].0@ == "global"@,
                !directory.functions@[1].1.is_program,
                directory.functions@[1].1.parameters@.len() == 0,
                locals_match(directory.functions@[1].1.local_variables@, program.vars@),
                directory.functions@[1].1.start_quad_idx is None,
                directory.functions@[2].0@ == "main"@,
                !directory.functions@[2].1.is_program,
                directory.functions@[2].1.parameters@.len() == 0,
                directory.functions@[2].1.local_variables@.len() == 0,
                directory.functions@[2].1.start_quad_idx is None,
                forall|k: int|
                    0 <= k < i ==> {
                        let e = #[trigger] directory.functions@[3 + k];
                        &&& e.0@ == program.funcs@[k].id@
                        &&& !e.1.is_program
                        &&& e.1.start_quad_idx is None
                        &&& params_match(e.1.parameters@, program.funcs@[k].parameters@)
                        &&& locals_match(e.1.local_variables@, program.funcs@[k].vars@)
                    },
                forall|k: int| 0 <= k < i ==> !func_has_collision(#[trigger] program.funcs@[k]),
                !decls_have_dup(program.vars@),
                forall|k: int|
                    0 <= k < program.vars@.len() ==> (#[trigger] directory.functions@[1].1.local_variables@[k]).1.address
                        == seg_start(program.vars@[k].var_type) + decls_count(
                        program.vars@.take(k),
                        program.vars@[k].var_type,
                    ),
                forall|f: int, k: int|
                    0 <= f < i && 0 <= k < program.funcs@[f].parameters@.len() ==> (
                    #[trigger] directory.functions@[3 + f].1.parameters@[k]).2 == seg_start(
                        program.funcs@[f].parameters@[k].param_type,
                    ) + decls_count(program.vars@, program.funcs@[f].parameters@[k].param_type)
                        + funcs_count(
                        program.funcs@.take(f),
                        program.funcs@[f].parameters@[k].param_type,
                    ) + params_count(
                        program.funcs@[f].parameters@.take(k),
                        program.funcs@[f].parameters@[k].param_type,
                    ),
                forall|f: int, k: int|
                    0 <= f < i && 0 <= k < program.funcs@[f].vars@.len() ==> (
                    #[trigger] directory.functions@[3 + f].1.local_variables@[k]).1.address
                        == seg_start(program.funcs@[f].vars@[k].var_type) + decls_count(
                        program.vars@,
                        program.funcs@[f].vars@[k].var_type,
                    ) + funcs_count(program.funcs@.take(f), program.funcs@[f].vars@[k].var_type)
                        + params_count(
                        program.funcs@[f].parameters@,
                        program.funcs@[f].vars@[k].var_type,
                    ) + decls_count(
                        program.funcs@[f].vars@.take(k),
                        program.funcs@[f].vars@[k].var_type,
                    ),
            decreases n - i,
        {
            proof {
                lemma_funcs_count_split(program.funcs@, i as int, Type::Int);
                lemma_funcs_count_split(program.funcs@, i as int, Type::Float);
                lemma_funcs_count_split(program.funcs@, i as int, Type::Bool);
                assert(program.funcs@.skip(i as int)[0] == program.funcs@[i as int]);
                assert(program.funcs@.skip(i as int).drop_first() =~= program.funcs@.skip(i + 1));
                assert(funcs_count(program.funcs@.skip(i as int), Type::Int) >= func_count(
                    program.funcs@[i as int],
                    Type::Int,
                ));
                assert(funcs_count(program.funcs@.skip(i as int), Type::Float) >= func_count(
                    program.funcs@[i as int],
                    Type::Float,
                ));
                assert(funcs_count(program.funcs@.skip(i as int), Type::Bool) >= func_count(
                    program.funcs@[i as int],
                    Type::Bool,
                ));
            }
            let ghost fs_before = directory.functions@;
            let ghost fs_ic = directory.int_counter;
            let ghost fs_fc = directory.float_counter;
            let ghost fs_bc = directory.bool_counter;
            let func = &program.funcs[i];
            match directory.add_function(func) {
                Ok(_) => {},
                Err(e) => {
                    proof {
                        lemma_has_name_iff(fs_before, func.id@);
                        if has_name(fs_before, func.id@) {
                            let j = choose|j: int|
                                0 <= j < fs_before.len() && (#[trigger] fs_before[j]).0@
                                    == func.id@;
                            if j >= 3 {
                                assert(fs_before[3 + (j - 3)].0@ == program.funcs@[j - 3].id@);
                                assert(program.funcs@[j - 3].id@ == program.funcs@[i as int].id@);
                            } else if j == 0 {
                                assert(program.funcs@[i as int].id@ == program.id@);
                            } else if j == 1 {
                                assert(program.funcs@[i as int].id@ == "global"@);
                            } else {
                                assert(program.funcs@[i as int].id@ == "main"@);
                            }
                        } else {
                            assert(func_has_collision(program.funcs@[i as int]));
                        }
                        assert(program_collision(*program));
                    }
                    return Err(e);
                },
            }
            proof {
                lemma_has_name_iff(fs_before, func.id@);
                lemma_funcs_count_take_step(program.funcs@, i as int, Type::Int);
                lemma_funcs_count_take_step(program.funcs@, i as int, Type::Float);
                lemma_funcs_count_take_step(program.funcs@, i as int, Type::Bool);
                assert forall|k: int| 0 <= k < i + 1 implies {
                    let e = #[trigger] directory.functions@[3 + k];
                    &&& e.0@ == program.funcs@[k].id@
                    &&& !e.1.is_program
                    &&& e.1.start_quad_idx is None
                    &&& params_match(e.1.parameters@, program.funcs@[k].parameters@)
                    &&& locals_match(e.1.local_variables@, program.funcs@[k].vars@)
                } by {
                    if k < i {
                        assert(directory.functions@[3 + k] == fs_before.subrange(
                            0,
                            fs_before.len() as int,
                        )[3 + k]);
                        assert(directory.functions@[3 + k] == fs_before[3 + k]);
                    } else {
                        assert(directory.functions@[3 + k] == directory.functions@.last());
                    }
                }
                assert(directory.functions@[0] == fs_before[0]);
                assert(directory.functions@[1] == fs_before[1]);
                assert(directory.functions@[2] == fs_before[2]);
                assert forall|f: int, k: int|
                    0 <= f < i + 1 && 0 <= k < program.funcs@[f].parameters@.len() implies (
                #[trigger] directory.functions@[3 + f].1.parameters@[k]).2 == seg_start(
                    program.funcs@[f].parameters@[k].param_type,
                ) + decls_count(program.vars@, program.funcs@[f].parameters@[k].param_type)
                    + funcs_count(program.funcs@.take(f), program.funcs@[f].parameters@[k].param_type)
                    + params_count(
                    program.funcs@[f].parameters@.take(k),
                    program.funcs@[f].parameters@[k].param_type,
                ) by {
                    if f < i {
                        assert(directory.functions@[3 + f] == fs_before[3 + f]);
                        assert((#[trigger] fs_before[3 + f].1.parameters@[k]).2 == seg_start(
                            program.funcs@[f].parameters@[k].param_type,
                        ) + decls_count(program.vars@, program.funcs@[f].parameters@[k].param_type)
                            + funcs_count(
                            program.funcs@.take(f),
                            program.funcs@[f].parameters@[k].param_type,
                        ) + params_count(
                            program.funcs@[f].parameters@.take(k),
                            program.funcs@[f].parameters@[k].param_type,
                        ));
                    } else {
                        assert(directory.functions@[3 + f] == directory.functions@.last());
                        let t = program.funcs@[f].parameters@[k].param_type;
                        assert(counter_of(
                            t,
                            fs_ic,
                            fs_fc,
                            fs_bc,
                        ) == seg_start(t) + decls_count(program.vars@, t) + funcs_count(
                            program.funcs@.take(f),
                            t,
                        ));
                    }
                }
                assert forall|f: int, k: int|
                    0 <= f < i + 1 && 0 <= k < program.funcs@[f].vars@.len() implies (
                #[trigger] directory.functions@[3 + f].1.local_variables@[k]).1.address
                    == seg_start(program.funcs@[f].vars@[k].var_type) + decls_count(
                    program.vars@,
                    program.funcs@[f].vars@[k].var_type,
                ) + funcs_count(program.funcs@.take(f), program.funcs@[f].vars@[k].var_type)
                    + params_count(
                    program.funcs@[f].parameters@,
                    program.funcs@[f].vars@[k].var_type,
                ) + decls_count(
                    program.funcs@[f].vars@.take(k),
                    program.funcs@[f].vars@[k].var_type,
                ) by {
                    if f < i {
                        assert(directory.functions@[3 + f] == fs_before[3 + f]);
                        assert((#[trigger] fs_before[3 + f].1.local_variables@[k]).1.address
                            == seg_start(program.funcs@[f].vars@[k].var_type) + decls_count(
                            program.vars@,
                            program.funcs@[f].vars@[k].var_type,
                        ) + funcs_count(
                            program.funcs@.take(f),
                            program.funcs@[f].vars@[k].var_type,
                        ) + params_count(
                            program.funcs@[f].parameters@,
                            program.funcs@[f].vars@[k].var_type,
                        ) + decls_count(
                            program.funcs@[f].vars@.take(k),
                            program.funcs@[f].vars@[k].var_type,
                        ));
                    } else {
                        assert(directory.functions@[3 + f] == directory.functions@.last());
                        let t = program.funcs@[f].vars@[k].var_type;
                        assert(counter_of(
                            t,
                            fs_ic,
                            fs_fc,
                            fs_bc,
                        ) == seg_start(t) + decls_count(program.vars@, t) + funcs_count(
                            program.funcs@.take(f),
                            t,
                        ));
                    }
                }
            }
            i = i + 1;
        }
        proof {
            assert(program.funcs@.take(n as int) =~= program.funcs@);
            assert(built_from(directory, *program));
            // No collision anywhere: globals were unique, every procedure
            // was fresh and internally consistent.
            assert forall|a: int, b: int|
                0 <= a < b < program.funcs@.len() implies (#[trigger] program.funcs@[a]).id@
                != (#[trigger] program.funcs@[b]).id@ by {
                assert(directory.functions@[3 + a].0@ == program.funcs@[a].id@);
                assert(directory.functions@[3 + b].0@ == program.funcs@[b].id@);
                assert(names_unique(directory.functions@));
            }
            assert forall|a: int|
                0 <= a < program.funcs@.len() implies !((#[trigger] program.funcs@[a].id@)
                == program.id@ || program.funcs@[a].id@ == "global"@ || program.funcs@[a].id@
                == "main"@) by {
                assert(directory.functions@[3 + a].0@ == program.funcs@[a].id@);
                assert(names_unique(directory.functions@));
                assert(directory.functions@[0].0@ == program.id@);
            }
            assert(!program_collision(*program));
        }
        Ok(directory)
    }

    /// Looks a scope up by name.
    pub fn get_function(&self, name: &str) -> (r: Option<&FunctionInfo>)
        ensures
            match r {
                Some(fi) => find_by_name(self.functions@, name@) == Some(*fi),
                None => find_by_name(self.functions@, name@) is None,
            },
    {
        match position_of_name(&self.functions, name) {
            Some(i) => Some(&self.functions[i].1),
            None => None,
        }
    }

    /// Whether a scope of that name exists.
    pub fn function_exists(&self, name: &str) -> (r: bool)
        ensures
            r == has_name(self.functions@, name@),
    {
        match position_of_name(&self.functions, name) {
            Some(_) => true,
            None => false,
        }
    }

    /// A variable's type, resolved in the active scope first and in
    /// `global` second.
    pub fn get_variable_type(&self, function_name: &str, variable_name: &str) -> (r: Option<Type>)
        ensures
            r == match resolve_var(*self, function_name@, variable_name@) {
                Some(v) => Some(v.var_type),
                None => None,
            },
    {
        proof {
            reveal_strlit("global");
        }
        match position_of_name(&self.functions, function_name) {
            Some(fi_idx) => {
                let fi = &self.functions[fi_idx].1;
                match position_of_name(&fi.local_variables, variable_name) {
                    Some(vi) => {
                        return Some(fi.local_variables[vi].1.var_type);
                    },
                    None => {},
                }
                match position_of_param(&fi.parameters, variable_name) {
                    Some(pi) => {
                        return Some(fi.parameters[pi].1);
                    },
                    None => {},
                }
            },
            None => {},
        }
        if !str_eq(function_name, "global") {
            match position_of_name(&self.functions, "global") {
                Some(gi) => {
                    let g = &self.functions[gi].1;
                    match position_of_name(&g.local_variables, variable_name) {
                        Some(vi) => {
                            return Some(g.local_variables[vi].1.var_type);
                        },
                        None => {},
                    }
                },
                None => {},
            }
        }
        None
    }

    /// A variable's address, resolved like its type.
    pub fn get_variable_address(&self, function_name: &str, variable_name: &str) -> (r: Option<
        i32,
    >)
        ensures
            r == match resolve_var(*self, function_name@, variable_name@) {
                Some(v) => Some(v.address),
                None => None,
            },
    {
        proof {
            reveal_strlit("global");
        }
        match position_of_name(&self.functions, function_name) {
            Some(fi_idx) => {
                let fi = &self.functions[fi_idx].1;
                match position_of_name(&fi.local_variables, variable_name) {
                    Some(vi) => {
                        return Some(fi.local_variables[vi].1.address);
                    },
                    None => {},
                }
                match position_of_param(&fi.parameters, variable_name) {
                    Some(pi) => {
                        return Some(fi.parameters[pi].2);
                    },
                    None => {},
                }
            },
            None => {},
        }
        if !str_eq(function_name, "global") {
            match position_of_name(&self.functions, "global") {
                Some(gi) => {
                    let g = &self.functions[gi].1;
                    match position_of_name(&g.local_variables, variable_name) {
                        Some(vi) => {
                            return Some(g.local_variables[vi].1.address);
                        },
                        None => {},
                    }
                },
                None => {},
            }
        }
        None
    }

    /// All scopes, in insertion order.
    pub fn get_all_functions(&self) -> (r: &Vec<(String, FunctionInfo)>)
        ensures
            r@ == self.functions@,
    {
        &self.functions
    }

    /// The global variables, when the `global` scope exists.
    pub fn get_global_variables(&self) -> (r: Option<&Vec<(String, VariableInfo)>>)
        ensures
            match r {
                Some(vs) => find_by_name(self.functions@, "global"@) is Some && vs@ == find_by_name(
                    self.functions@,
                    "global"@,
                ).unwrap().local_variables@,
                None => find_by_name(self.functions@, "global"@) is None,
            },
    {
        match position_of_name(&self.functions, "global") {
            Some(i) => Some(&self.functions[i].1.local_variables),
            None => None,
        }
    }

    /// Whether the named scope is the program marker entry.
    pub fn is_program_entry(&self, name: &str) -> (r: bool)
        ensures
            r == match find_by_name(self.functions@, name@) {
                Some(fi) => fi.is_program,
                None => false,
            },
    {
        match position_of_name(&self.functions, name) {
            Some(i) => self.functions[i].1.is_program,
            None => false,
        }
    }

    /// Whether a value of the second type may be assigned to a target of
    /// the first: identical types always, and `Int` into `Float`; nothing
    /// else.
    pub fn is_valid_assignment(&self, target_type: &Type, value_type: &Type) -> (r: bool)
        ensures
            r == valid_assignment(*target_type, *value_type),
    {
        match (target_type, value_type) {
            (Type::Int, Type::Int) => true,
            (Type::Float, Type::Float) => true,
            (Type::Bool, Type::Bool) => true,
            (Type::Float, Type::Int) => true,
            _ => false,
        }
    }

    /// Records the index of a procedure's first emitted instruction. Only
    /// the matching scope's start index changes; names, addresses, and
    /// counters stay as they were.
    pub fn set_function_start_quad(&mut self, func_name: &str, start_idx: i32)
        ensures
            final(self).int_counter == old(self).int_counter,
            final(self).float_counter == old(self).float_counter,
            final(self).bool_counter == old(self).bool_counter,
            dir_wf(*old(self)) ==> dir_wf(*final(self)),
            !has_name(old(self).functions@, func_name@) ==> final(self).functions@ == old(
                self,
            ).functions@,
            has_name(old(self).functions@, func_name@) ==> exists|k: int|
                {
                    &&& 0 <= k < old(self).functions@.len()
                    &&& (#[trigger] old(self).functions@[k]).0@ == func_name@
                    &&& find_by_name(old(self).functions@, func_name@) == Some(
                        old(self).functions@[k].1,
                    )
                    &&& final(self).functions@ == old(self).functions@.update(
                        k,
                        (
                            old(self).functions@[k].0,
                            (FunctionInfo {
                                return_type: old(self).functions@[k].1.return_type,
                                parameters: old(self).functions@[k].1.parameters,
                                local_variables: old(self).functions@[k].1.local_variables,
                                is_program: old(self).functions@[k].1.is_program,
                                start_quad_idx: Some(start_idx),
                            }),
                        ),
                    )
                },
    {
        let ghost before = self.functions@;
        match position_of_name(&self.functions, func_name) {
            Some(i) => {
                let mut entry = self.functions.remove(i);
                entry.1.start_quad_idx = Some(start_idx);
                self.functions.insert(i, entry);
                proof {
                    let updated = (
                        before[i as int].0,
                        (FunctionInfo {
                            return_type: before[i as int].1.return_type,
                            parameters: before[i as int].1.parameters,
                            local_variables: before[i as int].1.local_variables,
                            is_program: before[i as int].1.is_program,
                            start_quad_idx: Some(start_idx),
                        }),
                    );
                    assert(self.functions@ =~= before.update(i as int, updated));
                    if dir_wf(*old(self)) {
                        assert forall|a: int, b: int|
                            0 <= a < b < self.functions@.len() implies (
                        #[trigger] self.functions@[a]).0@ != (
                        #[trigger] self.functions@[b]).0@ by {
                            assert(before[a].0@ != before[b].0@);
                        }
                        assert forall|k: int| 0 <= k < self.functions@.len() implies fn_wf(
                            (#[trigger] self.functions@[k]).1,
                        ) by {
                            assert(fn_wf(before[k].1));
                        }
                        assert forall|k: int|
                            0 <= k < self.functions@.len() implies fn_typed_addrs(
                            #[trigger] self.functions@[k].1,
                        ) == fn_typed_addrs(before[k].1) by {
                            if k != i {
                                assert(self.functions@[k] == before[k]);
                            } else {
                                assert(fn_typed_addrs(self.functions@[k].1) =~= fn_typed_addrs(
                                    before[k].1,
                                ));
                            }
                        }
                        lemma_all_typed_addrs_congruent(self.functions@, before);
                    }
                }
            },
            None => {},
        }
    }
}

} // verus!
