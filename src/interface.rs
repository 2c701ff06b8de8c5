use vstd::prelude::*;
use crate::types::Type;

verus! {

/// A named, typed slot: a record field, a variant field or a function argument.
#[derive(Debug)]
pub struct Field {
    pub name: String,
    pub type_: Type,
}

/// One variant of an enum or an error, with its associated fields in order.
#[derive(Debug)]
pub struct Variant {
    pub name: String,
    pub fields: Vec<Field>,
}

#[derive(Debug)]
pub struct RecordDef {
    pub name: String,
    pub fields: Vec<Field>,
}

#[derive(Debug)]
pub struct EnumDef {
    pub name: String,
    pub variants: Vec<Variant>,
}

#[derive(Debug)]
pub struct ErrorDef {
    pub name: String,
    pub variants: Vec<Variant>,
}

#[derive(Debug)]
pub struct FunctionDef {
    pub name: String,
    pub arguments: Vec<Field>,
    pub return_type: Option<Type>,
}

#[derive(Debug)]
pub struct ObjectDef {
    pub name: String,
    pub methods: Vec<FunctionDef>,
}

/// The assembled model of one component: its namespace and its definitions,
/// every type in it resolved against them.
#[derive(Debug)]
pub struct ComponentInterface {
    pub namespace: String,
    pub records: Vec<RecordDef>,
    pub enums: Vec<EnumDef>,
    pub errors: Vec<ErrorDef>,
    pub objects: Vec<ObjectDef>,
    pub functions: Vec<FunctionDef>,
}

/// Why an interface could not be assembled.
#[derive(Debug, PartialEq, Eq)]
pub enum AssemblyError {
    /// The namespace is not a non-empty identifier.
    InvalidNamespace,
    /// Two definitions, of any kinds, share this name.
    DuplicateDefinition(String),
    /// The definition named first refers to the type named second, which no
    /// definition of the right kind declares.
    UnresolvedReference(String, String),
}

pub open spec fn record_names(rs: Seq<RecordDef>) -> Seq<Seq<char>> {
    Seq::new(rs.len(), |i: int| rs[i].name@)
}

pub open spec fn enum_names(es: Seq<EnumDef>) -> Seq<Seq<char>> {
    Seq::new(es.len(), |i: int| es[i].name@)
}

pub open spec fn error_names(es: Seq<ErrorDef>) -> Seq<Seq<char>> {
    Seq::new(es.len(), |i: int| es[i].name@)
}

pub open spec fn object_names(os: Seq<ObjectDef>) -> Seq<Seq<char>> {
    Seq::new(os.len(), |i: int| os[i].name@)
}

/// Every definition name, of every kind.
pub open spec fn all_names(ci: ComponentInterface) -> Seq<Seq<char>> {
    record_names(ci.records@) + enum_names(ci.enums@) + error_names(ci.errors@) + object_names(
        ci.objects@,
    )
}

pub open spec fn distinct(s: Seq<Seq<char>>) -> bool {
    forall|i: int, j: int| 0 <= i < s.len() && 0 <= j < s.len() && i != j ==> s[i] != s[j]
}

pub open spec fn is_ident_start(b: u8) -> bool {
    (97 <= b <= 122) || (65 <= b <= 90) || b == 95
}

pub open spec fn is_ident_byte(b: u8) -> bool {
    is_ident_start(b) || (48 <= b <= 57)
}

/// A non-empty ASCII identifier (bytes of `a`-`z`, `A`-`Z`, `_`, `0`-`9`): a letter or `_`, then letters, digits or `_`.
pub open spec fn is_identifier(b: Seq<u8>) -> bool {
    b.len() > 0 && is_ident_start(b[0]) && forall|i: int| 0 <= i < b.len() ==> is_ident_byte(b[i])
}

/// A named type refers to a definition of its own kind; nested types resolve.
pub open spec fn resolves(t: Type, ci: ComponentInterface) -> bool
    decreases t,
{
    match t {
        Type::Enum(n) => enum_names(ci.enums@).contains(n@),
        Type::Record(n) => record_names(ci.records@).contains(n@),
        Type::Object(n) => object_names(ci.objects@).contains(n@),
        Type::Error(n) => error_names(ci.errors@).contains(n@),
        Type::Optional(x) => resolves(*x, ci),
        Type::Sequence(x) => resolves(*x, ci),
        Type::StringMap(x) => resolves(*x, ci),
        _ => true,
    }
}

pub open spec fn fields_resolve(fs: Seq<Field>, ci: ComponentInterface) -> bool {
    forall|i: int| 0 <= i < fs.len() ==> resolves(#[trigger] fs[i].type_, ci)
}

pub open spec fn variants_resolve(vs: Seq<Variant>, ci: ComponentInterface) -> bool {
    forall|i: int| 0 <= i < vs.len() ==> fields_resolve(#[trigger] vs[i].fields@, ci)
}

pub open spec fn function_resolves(f: FunctionDef, ci: ComponentInterface) -> bool {
    fields_resolve(f.arguments@, ci) && match f.return_type {
        Some(t) => resolves(t, ci),
        None => true,
    }
}

pub open spec fn functions_resolve(fs: Seq<FunctionDef>, ci: ComponentInterface) -> bool {
    forall|i: int| 0 <= i < fs.len() ==> function_resolves(#[trigger] fs[i], ci)
}

/// Every type mentioned anywhere in the interface resolves.
pub open spec fn references_resolve(ci: ComponentInterface) -> bool {
    &&& forall|i: int|
        0 <= i < ci.records@.len() ==> fields_resolve(#[trigger] ci.records@[i].fields@, ci)
    &&& forall|i: int|
        0 <= i < ci.enums@.len() ==> variants_resolve(#[trigger] ci.enums@[i].variants@, ci)
    &&& forall|i: int|
        0 <= i < ci.errors@.len() ==> variants_resolve(#[trigger] ci.errors@[i].variants@, ci)
    &&& forall|i: int|
        0 <= i < ci.objects@.len() ==> functions_resolve(#[trigger] ci.objects@[i].methods@, ci)
    &&& functions_resolve(ci.functions@, ci)
}

/// Some field of `fs` named `s` has a type that does not resolve.
pub open spec fn fields_slot_unresolved(fs: Seq<Field>, s: Seq<char>, ci: ComponentInterface) -> bool {
    exists|k: int| 0 <= k < fs.len() && fs[k].name@ == s && !resolves(#[trigger] fs[k].type_, ci)
}

/// Slot `s` of `f` has a type that does not resolve: an argument of that
/// name, or, where `s` is the function's own name, its return type.
pub open spec fn function_slot_unresolved(f: FunctionDef, s: Seq<char>, ci: ComponentInterface) -> bool {
    fields_slot_unresolved(f.arguments@, s, ci) || (s == f.name@ && match f.return_type {
        Some(t) => !resolves(t, ci),
        None => false,
    })
}

/// Definition or function `d` holds a slot `s` whose type does not resolve.
pub open spec fn unresolved_slot(ci: ComponentInterface, d: Seq<char>, s: Seq<char>) -> bool {
    ||| exists|i: int|
        0 <= i < ci.records@.len() && ci.records@[i].name@ == d && fields_slot_unresolved(
            #[trigger] ci.records@[i].fields@,
            s,
            ci,
        )
    ||| exists|i: int, v: int|
        0 <= i < ci.enums@.len() && ci.enums@[i].name@ == d && 0 <= v
            < ci.enums@[i].variants@.len() && fields_slot_unresolved(
            #[trigger] ci.enums@[i].variants@[v].fields@,
            s,
            ci,
        )
    ||| exists|i: int, v: int|
        0 <= i < ci.errors@.len() && ci.errors@[i].name@ == d && 0 <= v
            < ci.errors@[i].variants@.len() && fields_slot_unresolved(
            #[trigger] ci.errors@[i].variants@[v].fields@,
            s,
            ci,
        )
    ||| exists|i: int, m: int|
        0 <= i < ci.objects@.len() && ci.objects@[i].name@ == d && 0 <= m
            < ci.objects@[i].methods@.len() && function_slot_unresolved(
            #[trigger] ci.objects@[i].methods@[m],
            s,
            ci,
        )
    ||| exists|i: int|
        0 <= i < ci.functions@.len() && ci.functions@[i].name@ == d && function_slot_unresolved(
            #[trigger] ci.functions@[i],
            s,
            ci,
        )
}

/// The record with name `n` (meaningful when exactly one exists).
pub open spec fn record_index(ci: ComponentInterface, n: Seq<char>) -> int {
    choose|i: int| 0 <= i < ci.records@.len() && ci.records@[i].name@ == n
}

pub open spec fn record_named(ci: ComponentInterface, n: Seq<char>) -> RecordDef {
    ci.records@[record_index(ci, n)]
}

pub open spec fn enum_index(ci: ComponentInterface, n: Seq<char>) -> int {
    choose|i: int| 0 <= i < ci.enums@.len() && ci.enums@[i].name@ == n
}

pub open spec fn enum_named(ci: ComponentInterface, n: Seq<char>) -> EnumDef {
    ci.enums@[enum_index(ci, n)]
}

pub open spec fn error_index(ci: ComponentInterface, n: Seq<char>) -> int {
    choose|i: int| 0 <= i < ci.errors@.len() && ci.errors@[i].name@ == n
}

pub open spec fn error_named(ci: ComponentInterface, n: Seq<char>) -> ErrorDef {
    ci.errors@[error_index(ci, n)]
}

impl ComponentInterface {
    /// A valid interface: an identifier for a namespace, one definition per
    /// name across all kinds, and every reference resolved.
    pub open spec fn wf(self) -> bool {
        &&& is_identifier(vstd::utf8::encode_utf8(self.namespace@))
        &&& distinct(all_names(self))
        &&& references_resolve(self)
    }
}

} // verus!

verus! {

/// The views of a list of strings.
pub open spec fn views(v: Seq<String>) -> Seq<Seq<char>> {
    Seq::new(v.len(), |i: int| v[i]@)
}

pub proof fn lemma_views_push(s: Seq<String>, x: String)
    ensures
        views(s.push(x)) =~= views(s).push(x@),
{
}

/// Whether the bytes of `s` form an identifier.
pub fn check_identifier(s: &String) -> (r: bool)
    ensures
        r == is_identifier(vstd::utf8::encode_utf8(s@)),
{
    let b = s.as_str().as_bytes();
    let n = b.len();
    if n == 0 {
        return false;
    }
    let first = b[0];
    if !((97 <= first && first <= 122) || (65 <= first && first <= 90) || first == 95) {
        return false;
    }
    let mut i: usize = 0;
    while i < n
        invariant
            n == b@.len(),
            b@ == vstd::utf8::encode_utf8(s@),
            forall|k: int| 0 <= k < i ==> is_ident_byte(b@[k]),
        decreases n - i,
    {
        let c = b[i];
        if !((97 <= c && c <= 122) || (65 <= c && c <= 90) || c == 95 || (48 <= c && c <= 57)) {
            return false;
        }
        i = i + 1;
    }
    true
}

/// Finds a name that occurs twice in `names`, if any.
pub fn find_duplicate(names: &Vec<String>) -> (r: Option<usize>)
    ensures
        r is None <==> distinct(views(names@)),
        r matches Some(j) ==> j < names@.len() && exists|i: int|
            0 <= i < names@.len() && i != j && names@[i]@ == names@[j as int]@,
{
    let n = names.len();
    let mut j: usize = 0;
    while j < n
        invariant
            n == names@.len(),
            j <= n,
            forall|a: int, b: int|
                0 <= a < j && 0 <= b < j && a != b ==> names@[a]@ != names@[b]@,
        decreases n - j,
    {
        let mut i: usize = 0;
        while i < j
            invariant
                n == names@.len(),
                i <= j < n,
                forall|a: int| 0 <= a < i ==> names@[a]@ != names@[j as int]@,
            decreases j - i,
        {
            if names[i] == names[j] {
                assert(views(names@)[i as int] == views(names@)[j as int]);
                return Some(j);
            }
            i = i + 1;
        }
        j = j + 1;
    }
    assert(forall|a: int| 0 <= a < n ==> views(names@)[a] == names@[a]@);
    None
}

impl ComponentInterface {
    pub fn find_record(&self, n: &String) -> (r: Option<usize>)
        ensures
            r matches Some(i) ==> i < self.records@.len() && self.records@[i as int].name@ == n@,
            r is None <==> !record_names(self.records@).contains(n@),
    {
        let mut i: usize = 0;
        while i < self.records.len()
            invariant
                forall|k: int| 0 <= k < i ==> self.records@[k].name@ != n@,
            decreases self.records@.len() - i,
        {
            if self.records[i].name == *n {
                assert(record_names(self.records@)[i as int] == n@);
                return Some(i);
            }
            i = i + 1;
        }
        proof {
            if record_names(self.records@).contains(n@) {
                let k = choose|k: int| 0 <= k < record_names(self.records@).len()
                    && record_names(self.records@)[k] == n@;
                assert(self.records@[k].name@ == n@);
            }
        }
        None
    }

    pub fn find_enum(&self, n: &String) -> (r: Option<usize>)
        ensures
            r matches Some(i) ==> i < self.enums@.len() && self.enums@[i as int].name@ == n@,
            r is None <==> !enum_names(self.enums@).contains(n@),
    {
        let mut i: usize = 0;
        while i < self.enums.len()
            invariant
                forall|k: int| 0 <= k < i ==> self.enums@[k].name@ != n@,
            decreases self.enums@.len() - i,
        {
            if self.enums[i].name == *n {
                assert(enum_names(self.enums@)[i as int] == n@);
                return Some(i);
            }
            i = i + 1;
        }
        proof {
            if enum_names(self.enums@).contains(n@) {
                let k = choose|k: int| 0 <= k < enum_names(self.enums@).len()
                    && enum_names(self.enums@)[k] == n@;
                assert(self.enums@[k].name@ == n@);
            }
        }
        None
    }

    pub fn find_error(&self, n: &String) -> (r: Option<usize>)
        ensures
            r matches Some(i) ==> i < self.errors@.len() && self.errors@[i as int].name@ == n@,
            r is None <==> !error_names(self.errors@).contains(n@),
    {
        let mut i: usize = 0;
        while i < self.errors.len()
            invariant
                forall|k: int| 0 <= k < i ==> self.errors@[k].name@ != n@,
            decreases self.errors@.len() - i,
        {
            if self.errors[i].name == *n {
                assert(error_names(self.errors@)[i as int] == n@);
                return Some(i);
            }
            i = i + 1;
        }
        proof {
            if error_names(self.errors@).contains(n@) {
                let k = choose|k: int| 0 <= k < error_names(self.errors@).len()
                    && error_names(self.errors@)[k] == n@;
                assert(self.errors@[k].name@ == n@);
            }
        }
        None
    }

    pub fn find_object(&self, n: &String) -> (r: Option<usize>)
        ensures
            r matches Some(i) ==> i < self.objects@.len() && self.objects@[i as int].name@ == n@,
            r is None <==> !object_names(self.objects@).contains(n@),
    {
        let mut i: usize = 0;
        while i < self.objects.len()
            invariant
                forall|k: int| 0 <= k < i ==> self.objects@[k].name@ != n@,
            decreases self.objects@.len() - i,
        {
            if self.objects[i].name == *n {
                assert(object_names(self.objects@)[i as int] == n@);
                return Some(i);
            }
            i = i + 1;
        }
        proof {
            if object_names(self.objects@).contains(n@) {
                let k = choose|k: int| 0 <= k < object_names(self.objects@).len()
                    && object_names(self.objects@)[k] == n@;
                assert(self.objects@[k].name@ == n@);
            }
        }
        None
    }

    /// Whether `t` resolves against this interface's definitions.
    pub fn type_resolves(&self, t: &Type) -> (r: bool)
        ensures
            r == resolves(*t, *self),
        decreases t,
    {
        match t {
            Type::Enum(n) => self.find_enum(n).is_some(),
            Type::Record(n) => self.find_record(n).is_some(),
            Type::Object(n) => self.find_object(n).is_some(),
            Type::Error(n) => self.find_error(n).is_some(),
            Type::Optional(x) => self.type_resolves(x),
            Type::Sequence(x) => self.type_resolves(x),
            Type::StringMap(x) => self.type_resolves(x),
            _ => true,
        }
    }
}

} // verus!

verus! {

impl ComponentInterface {
    /// Every definition name, records first, then enums, errors and objects.
    pub fn collect_names(&self) -> (r: Vec<String>)
        ensures
            views(r@) == all_names(*self),
    {
        let mut out: Vec<String> = Vec::new();
        let mut i: usize = 0;
        while i < self.records.len()
            invariant
                i <= self.records@.len(),
                views(out@) =~= record_names(self.records@).take(i as int),
            decreases self.records@.len() - i,
        {
            let ghost before = out@;
            out.push(self.records[i].name.clone());
            proof {
                lemma_views_push(before, self.records@[i as int].name);
                assert(record_names(self.records@).take(i + 1) =~= record_names(self.records@).take(i as int).push(
                    self.records@[i as int].name@,
                ));
            }
            i = i + 1;
            assert(views(out@) =~= record_names(self.records@).take(i as int));
        }
        assert(record_names(self.records@).take(i as int) =~= record_names(self.records@));
        let ghost record_part = record_names(self.records@);
        i = 0;
        while i < self.enums.len()
            invariant
                i <= self.enums@.len(),
                views(out@) =~= record_part + enum_names(self.enums@).take(i as int),
            decreases self.enums@.len() - i,
        {
            let ghost before = out@;
            out.push(self.enums[i].name.clone());
            proof {
                lemma_views_push(before, self.enums@[i as int].name);
                assert(enum_names(self.enums@).take(i + 1) =~= enum_names(self.enums@).take(i as int).push(
                    self.enums@[i as int].name@,
                ));
            }
            i = i + 1;
            assert(views(out@) =~= record_part + enum_names(self.enums@).take(i as int));
        }
        assert(enum_names(self.enums@).take(i as int) =~= enum_names(self.enums@));
        let ghost through_enums = record_part + enum_names(self.enums@);
        i = 0;
        while i < self.errors.len()
            invariant
                i <= self.errors@.len(),
                views(out@) =~= through_enums + error_names(self.errors@).take(i as int),
            decreases self.errors@.len() - i,
        {
            let ghost before = out@;
            out.push(self.errors[i].name.clone());
            proof {
                lemma_views_push(before, self.errors@[i as int].name);
                assert(error_names(self.errors@).take(i + 1) =~= error_names(self.errors@).take(i as int).push(
                    self.errors@[i as int].name@,
                ));
            }
            i = i + 1;
            assert(views(out@) =~= through_enums + error_names(self.errors@).take(i as int));
        }
        assert(error_names(self.errors@).take(i as int) =~= error_names(self.errors@));
        let ghost through_errors = through_enums + error_names(self.errors@);
        i = 0;
        while i < self.objects.len()
            invariant
                i <= self.objects@.len(),
                views(out@) =~= through_errors + object_names(self.objects@).take(i as int),
            decreases self.objects@.len() - i,
        {
            let ghost before = out@;
            out.push(self.objects[i].name.clone());
            proof {
                lemma_views_push(before, self.objects@[i as int].name);
                assert(object_names(self.objects@).take(i + 1) =~= object_names(self.objects@).take(i as int).push(
                    self.objects@[i as int].name@,
                ));
            }
            i = i + 1;
            assert(views(out@) =~= through_errors + object_names(self.objects@).take(i as int));
        }
        assert(object_names(self.objects@).take(i as int) =~= object_names(self.objects@));
        out
    }

    /// The index of the first field whose type does not resolve.
    pub fn check_fields(&self, fs: &Vec<Field>) -> (r: Option<usize>)
        ensures
            r is None <==> fields_resolve(fs@, *self),
            r matches Some(i) ==> i < fs@.len() && !resolves(fs@[i as int].type_, *self),
    {
        let mut i: usize = 0;
        while i < fs.len()
            invariant
                forall|k: int| 0 <= k < i ==> resolves(#[trigger] fs@[k].type_, *self),
            decreases fs@.len() - i,
        {
            if !self.type_resolves(&fs[i].type_) {
                return Some(i);
            }
            i = i + 1;
        }
        None
    }

    /// The first variant and field whose type does not resolve.
    pub fn check_variants(&self, vs: &Vec<Variant>) -> (r: Option<(usize, usize)>)
        ensures
            r is None <==> variants_resolve(vs@, *self),
            r matches Some((i, k)) ==> i < vs@.len() && k < vs@[i as int].fields@.len()
                && !resolves(vs@[i as int].fields@[k as int].type_, *self),
    {
        let mut i: usize = 0;
        while i < vs.len()
            invariant
                forall|k: int| 0 <= k < i ==> fields_resolve(#[trigger] vs@[k].fields@, *self),
            decreases vs@.len() - i,
        {
            match self.check_fields(&vs[i].fields) {
                Some(k) => {
                    return Some((i, k));
                },
                None => {},
            }
            i = i + 1;
        }
        None
    }

    /// The name of the first argument of `f` whose type does not resolve, or
    /// the function's own name where its return type does not.
    pub fn check_function(&self, f: &FunctionDef) -> (r: Option<String>)
        ensures
            r is None <==> function_resolves(*f, *self),
            r matches Some(slot) ==> function_slot_unresolved(*f, slot@, *self),
    {
        match self.check_fields(&f.arguments) {
            Some(k) => {
                let a = f.arguments[k].name.clone();
                assert(f.arguments@[k as int].name@ == a@);
                return Some(a);
            },
            None => {},
        }
        match &f.return_type {
            Some(t) => {
                if !self.type_resolves(t) {
                    return Some(f.name.clone());
                }
            },
            None => {},
        }
        None
    }

    /// The first functions whose types do not resolve: the offending
    /// function's name and the unresolved slot.
    pub fn check_functions(&self, fs: &Vec<FunctionDef>) -> (r: Option<(String, String)>)
        ensures
            r is None <==> functions_resolve(fs@, *self),
            r matches Some((n, slot)) ==> exists|i: int|
                0 <= i < fs@.len() && fs@[i].name@ == n@ && function_slot_unresolved(
                    #[trigger] fs@[i],
                    slot@,
                    *self,
                ),
    {
        let mut i: usize = 0;
        while i < fs.len()
            invariant
                forall|k: int| 0 <= k < i ==> function_resolves(#[trigger] fs@[k], *self),
            decreases fs@.len() - i,
        {
            match self.check_function(&fs[i]) {
                Some(slot) => {
                    let n = fs[i].name.clone();
                    assert(fs@[i as int].name@ == n@);
                    return Some((n, slot));
                },
                None => {},
            }
            i = i + 1;
        }
        None
    }

    /// The first unresolved reference: the definition that holds it and the
    /// slot (field, argument or function) whose type does not resolve.
    pub fn check_references(&self) -> (r: Option<(String, String)>)
        ensures
            r is None <==> references_resolve(*self),
            r matches Some((d, slot)) ==> unresolved_slot(*self, d@, slot@),
    {
        let mut i: usize = 0;
        while i < self.records.len()
            invariant
                forall|k: int|
                    0 <= k < i ==> fields_resolve(#[trigger] self.records@[k].fields@, *self),
            decreases self.records@.len() - i,
        {
            match self.check_fields(&self.records[i].fields) {
                Some(k) => {
                    let d = self.records[i].name.clone();
                    let f = self.records[i].fields[k].name.clone();
                    assert(fields_slot_unresolved(self.records@[i as int].fields@, f@, *self)) by {
                        assert(self.records@[i as int].fields@[k as int].name@ == f@);
                    }
                    return Some((d, f));
                },
                None => {},
            }
            i = i + 1;
        }
        i = 0;
        while i < self.enums.len()
            invariant
                forall|k: int|
                    0 <= k < i ==> variants_resolve(#[trigger] self.enums@[k].variants@, *self),
            decreases self.enums@.len() - i,
        {
            match self.check_variants(&self.enums[i].variants) {
                Some((v, k)) => {
                    let d = self.enums[i].name.clone();
                    let f = self.enums[i].variants[v].fields[k].name.clone();
                    assert(fields_slot_unresolved(
                        self.enums@[i as int].variants@[v as int].fields@,
                        f@,
                        *self,
                    )) by {
                        assert(self.enums@[i as int].variants@[v as int].fields@[k as int].name@
                            == f@);
                    }
                    return Some((d, f));
                },
                None => {},
            }
            i = i + 1;
        }
        i = 0;
        while i < self.errors.len()
            invariant
                forall|k: int|
                    0 <= k < i ==> variants_resolve(#[trigger] self.errors@[k].variants@, *self),
            decreases self.errors@.len() - i,
        {
            match self.check_variants(&self.errors[i].variants) {
                Some((v, k)) => {
                    let d = self.errors[i].name.clone();
                    let f = self.errors[i].variants[v].fields[k].name.clone();
                    assert(fields_slot_unresolved(
                        self.errors@[i as int].variants@[v as int].fields@,
                        f@,
                        *self,
                    )) by {
                        assert(self.errors@[i as int].variants@[v as int].fields@[k as int].name@
                            == f@);
                    }
                    return Some((d, f));
                },
                None => {},
            }
            i = i + 1;
        }
        i = 0;
        while i < self.objects.len()
            invariant
                forall|k: int|
                    0 <= k < i ==> functions_resolve(#[trigger] self.objects@[k].methods@, *self),
            decreases self.objects@.len() - i,
        {
            match self.check_functions(&self.objects[i].methods) {
                Some((m, slot)) => {
                    let d = self.objects[i].name.clone();
                    return Some((d, slot));
                },
                None => {},
            }
            i = i + 1;
        }
        self.check_functions(&self.functions)
    }

    /// Assembles and validates an interface. Fails on the first broken rule,
    /// checked in this order: the namespace, duplicate names, then
    /// unresolved references.
    pub fn assemble(
        namespace: String,
        records: Vec<RecordDef>,
        enums: Vec<EnumDef>,
        errors: Vec<ErrorDef>,
        objects: Vec<ObjectDef>,
        functions: Vec<FunctionDef>,
    ) -> (r: Result<ComponentInterface, AssemblyError>)
        ensures
            ({
                let c = ComponentInterface { namespace, records, enums, errors, objects, functions };
                &&& r matches Ok(ci) ==> ci == c && ci.wf()
                &&& (r is Ok) <==> c.wf()
                &&& (r matches Err(AssemblyError::InvalidNamespace)) <==> !is_identifier(
                    vstd::utf8::encode_utf8(namespace@),
                )
                &&& (r matches Err(AssemblyError::DuplicateDefinition(_))) <==> is_identifier(
                    vstd::utf8::encode_utf8(namespace@),
                ) && !distinct(all_names(c))
                &&& (r matches Err(AssemblyError::UnresolvedReference(_, _))) <==> is_identifier(
                    vstd::utf8::encode_utf8(namespace@),
                ) && distinct(all_names(c)) && !references_resolve(c)
                &&& r matches Err(AssemblyError::DuplicateDefinition(n)) ==> exists|i: int, j: int|
                    0 <= i < all_names(c).len() && 0 <= j < all_names(c).len() && i != j
                        && all_names(c)[i] == n@ && all_names(c)[j] == n@
                &&& r matches Err(AssemblyError::UnresolvedReference(d, s)) ==> unresolved_slot(
                    c,
                    d@,
                    s@,
                )
            }),
    {
        let ok_namespace = check_identifier(&namespace);
        let ci = ComponentInterface { namespace, records, enums, errors, objects, functions };
        if !ok_namespace {
            return Err(AssemblyError::InvalidNamespace);
        }
        let names = ci.collect_names();
        match find_duplicate(&names) {
            Some(j) => {
                let n = names[j].clone();
                proof {
                    assert(views(names@)[j as int] == n@);
                    let i = choose|i: int|
                        0 <= i < names@.len() && i != j && names@[i]@ == names@[j as int]@;
                    assert(views(names@)[i] == n@);
                }
                return Err(AssemblyError::DuplicateDefinition(n));
            },
            None => {},
        }
        match ci.check_references() {
            Some((d, slot)) => {
                return Err(AssemblyError::UnresolvedReference(d, slot));
            },
            None => {},
        }
        Ok(ci)
    }
}

} // verus!

verus! {

impl ComponentInterface {
    /// In a valid interface the record found by name is the one that the
    /// name denotes.
    pub proof fn lemma_record_named(self, i: int)
        requires
            self.wf(),
            0 <= i < self.records@.len(),
        ensures
            record_named(self, self.records@[i].name@) == self.records@[i],
    {
        let n = self.records@[i].name@;
        let names = all_names(self);
        assert(names[i] == n);
        let j = record_index(self, n);
        assert(names[j] == n);
        assert(j == i);
    }

    pub proof fn lemma_enum_named(self, i: int)
        requires
            self.wf(),
            0 <= i < self.enums@.len(),
        ensures
            enum_named(self, self.enums@[i].name@) == self.enums@[i],
    {
        let n = self.enums@[i].name@;
        let names = all_names(self);
        let off = self.records@.len();
        assert(names[off + i] == n);
        let j = enum_index(self, n);
        assert(names[off + j] == n);
        assert(j == i);
    }

    pub proof fn lemma_error_named(self, i: int)
        requires
            self.wf(),
            0 <= i < self.errors@.len(),
        ensures
            error_named(self, self.errors@[i].name@) == self.errors@[i],
    {
        let n = self.errors@[i].name@;
        let names = all_names(self);
        let off = self.records@.len() + self.enums@.len();
        assert(names[off + i] == n);
        let j = error_index(self, n);
        assert(names[off + j] == n);
        assert(j == i);
    }
}

} // verus!

verus! {

/// The description of a record exported from native code.
#[derive(Debug, Clone, Copy, PartialEq, Eq, Structural)]
pub struct RecordDefinition {}

impl ComponentInterface {
    pub fn namespace(&self) -> (r: &str)
        ensures
            r@ == self.namespace@,
    {
        self.namespace.as_str()
    }

    pub fn function_definitions(&self) -> (r: &Vec<FunctionDef>)
        ensures
            r@ == self.functions@,
    {
        &self.functions
    }

    pub fn record_definitions(&self) -> (r: &Vec<RecordDef>)
        ensures
            r@ == self.records@,
    {
        &self.records
    }

    pub fn enum_definitions(&self) -> (r: &Vec<EnumDef>)
        ensures
            r@ == self.enums@,
    {
        &self.enums
    }

    pub fn error_definitions(&self) -> (r: &Vec<ErrorDef>)
        ensures
            r@ == self.errors@,
    {
        &self.errors
    }

    pub fn object_definitions(&self) -> (r: &Vec<ObjectDef>)
        ensures
            r@ == self.objects@,
    {
        &self.objects
    }
}

} // verus!
