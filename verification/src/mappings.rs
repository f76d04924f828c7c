//! The mapper algebra: JVM types, method identifiers, mapping tables, the
//! base and composite mappers, and the planner that picks a path through the
//! graph of naming schemes.
use vstd::prelude::*;

use crate::names::NamesType;
use crate::parsing::{chars_of, str_eq, string_of};
use crate::{ErrorKind, SPError};

pub mod cache;
pub mod fabric_intermediary;
pub mod graph;
pub mod mojang;
pub mod proguard;
pub mod raw;
pub mod tiny;

verus! {

/// The shape of a JVM value type with arrays flattened: `dims` levels of
/// array over a non-array base.
#[verifier::ext_equal]
pub struct TypeV {
    pub dims: nat,
    pub base: JBaseV,
}

/// A non-array JVM type: one of the primitives or an object type holding a
/// dot-separated qualified name.
pub enum JBaseV {
    Void,
    Boolean,
    Byte,
    Char,
    Short,
    Int,
    Long,
    Float,
    Double,
    Object(Seq<char>),
}

#[verifier::ext_equal]
pub struct DescriptorV {
    pub params: Seq<TypeV>,
    pub ret: TypeV,
}

#[verifier::ext_equal]
pub struct MethodIdV {
    pub name: Seq<char>,
    pub descriptor: DescriptorV,
}

/// A JVM value type.  Qualified names use `.` as the package separator;
/// wire-format slashes are normalized away by the parsers.
#[derive(Debug, PartialEq, Eq, Hash)]
pub enum Type {
    Void,
    Boolean,
    Byte,
    Char,
    Short,
    Int,
    Long,
    Float,
    Double,
    /// Object type, e.g. `java.lang.String`.
    Object(String),
    Array(Box<Type>),
}

/// The view of a [`Type`], with nested arrays flattened into a dimension
/// count.
pub open spec fn type_view(t: Type) -> TypeV
    decreases t,
{
    match t {
        Type::Void => TypeV { dims: 0, base: JBaseV::Void },
        Type::Boolean => TypeV { dims: 0, base: JBaseV::Boolean },
        Type::Byte => TypeV { dims: 0, base: JBaseV::Byte },
        Type::Char => TypeV { dims: 0, base: JBaseV::Char },
        Type::Short => TypeV { dims: 0, base: JBaseV::Short },
        Type::Int => TypeV { dims: 0, base: JBaseV::Int },
        Type::Long => TypeV { dims: 0, base: JBaseV::Long },
        Type::Float => TypeV { dims: 0, base: JBaseV::Float },
        Type::Double => TypeV { dims: 0, base: JBaseV::Double },
        Type::Object(name) => TypeV { dims: 0, base: JBaseV::Object(name@) },
        Type::Array(t) => {
            let inner = type_view(*t);
            TypeV { dims: inner.dims + 1, base: inner.base }
        },
    }
}

impl View for Type {
    type V = TypeV;

    open spec fn view(&self) -> TypeV {
        type_view(*self)
    }
}

/// An ordered list of parameter types and a return type; equality is
/// structural.
#[derive(Debug, PartialEq, Eq, Hash)]
pub struct Descriptor {
    pub params: Vec<Type>,
    pub return_type: Type,
}

impl View for Descriptor {
    type V = DescriptorV;

    open spec fn view(&self) -> DescriptorV {
        DescriptorV {
            params: self.params@.map_values(|t: Type| t@),
            ret: self.return_type@,
        }
    }
}

/// The pair that identifies a method within a class: its name and its
/// descriptor.
#[derive(Debug, PartialEq, Eq, Hash)]
pub struct MethodId {
    pub name: String,
    pub descriptor: Descriptor,
}

impl View for MethodId {
    type V = MethodIdV;

    open spec fn view(&self) -> MethodIdV {
        MethodIdV { name: self.name@, descriptor: self.descriptor@ }
    }
}

/// Structural equality of types, decided on the views.
pub fn eq_type(a: &Type, b: &Type) -> (r: bool)
    ensures
        r == (a@ == b@),
    decreases a,
{
    match (a, b) {
        (Type::Void, Type::Void) => true,
        (Type::Boolean, Type::Boolean) => true,
        (Type::Byte, Type::Byte) => true,
        (Type::Char, Type::Char) => true,
        (Type::Short, Type::Short) => true,
        (Type::Int, Type::Int) => true,
        (Type::Long, Type::Long) => true,
        (Type::Float, Type::Float) => true,
        (Type::Double, Type::Double) => true,
        (Type::Object(x), Type::Object(y)) => str_eq(x.as_str(), y.as_str()),
        (Type::Array(x), Type::Array(y)) => eq_type(x, y),
        _ => false,
    }
}

pub fn eq_descriptor(a: &Descriptor, b: &Descriptor) -> (r: bool)
    ensures
        r == (a@ == b@),
{
    if a.params.len() != b.params.len() {
        assert(a@.params.len() != b@.params.len());
        return false;
    }
    let mut i: usize = 0;
    while i < a.params.len()
        invariant
            i <= a.params@.len() == b.params@.len(),
            forall|k: int| 0 <= k < i ==> a.params@[k]@ == b.params@[k]@,
        decreases a.params@.len() - i,
    {
        if !eq_type(&a.params[i], &b.params[i]) {
            assert(a@.params[i as int] != b@.params[i as int]);
            return false;
        }
        i += 1;
    }
    if eq_type(&a.return_type, &b.return_type) {
        proof {
            assert(a@.params =~= b@.params);
            assert(a@ =~= b@);
        }
        true
    } else {
        false
    }
}

pub fn eq_method_id(a: &MethodId, b: &MethodId) -> (r: bool)
    ensures
        r == (a@ == b@),
{
    if str_eq(a.name.as_str(), b.name.as_str()) && eq_descriptor(&a.descriptor, &b.descriptor) {
        proof {
            assert(a@ =~= b@);
        }
        true
    } else {
        false
    }
}

/// An exact copy of a type.
pub fn clone_type(t: &Type) -> (r: Type)
    ensures
        r@ == t@,
    decreases t,
{
    match t {
        Type::Void => Type::Void,
        Type::Boolean => Type::Boolean,
        Type::Byte => Type::Byte,
        Type::Char => Type::Char,
        Type::Short => Type::Short,
        Type::Int => Type::Int,
        Type::Long => Type::Long,
        Type::Float => Type::Float,
        Type::Double => Type::Double,
        Type::Object(name) => Type::Object(name.clone()),
        Type::Array(inner) => Type::Array(Box::new(clone_type(inner))),
    }
}

pub fn clone_descriptor(d: &Descriptor) -> (r: Descriptor)
    ensures
        r@ == d@,
{
    let mut params: Vec<Type> = Vec::new();
    let mut i: usize = 0;
    while i < d.params.len()
        invariant
            i <= d.params@.len(),
            params@.len() == i,
            forall|k: int| 0 <= k < i ==> params@[k]@ == d.params@[k]@,
        decreases d.params@.len() - i,
    {
        params.push(clone_type(&d.params[i]));
        i += 1;
    }
    let r = Descriptor { params, return_type: clone_type(&d.return_type) };
    proof {
        assert(r@.params =~= d@.params);
        assert(r@ =~= d@);
    }
    r
}

pub fn clone_method_id(m: &MethodId) -> (r: MethodId)
    ensures
        r@ == m@,
{
    let r = MethodId { name: m.name.clone(), descriptor: clone_descriptor(&m.descriptor) };
    proof {
        assert(r@ =~= m@);
    }
    r
}

/// [`Type::from_source_name`] on the view: source-language keywords name the
/// primitives, a `[]` suffix adds one array dimension, anything else is an
/// object type.
pub open spec fn spec_from_source_name(n: Seq<char>) -> TypeV
    decreases n.len(),
{
    if n == "void"@ {
        TypeV { dims: 0, base: JBaseV::Void }
    } else if n == "boolean"@ {
        TypeV { dims: 0, base: JBaseV::Boolean }
    } else if n == "byte"@ {
        TypeV { dims: 0, base: JBaseV::Byte }
    } else if n == "char"@ {
        TypeV { dims: 0, base: JBaseV::Char }
    } else if n == "short"@ {
        TypeV { dims: 0, base: JBaseV::Short }
    } else if n == "int"@ {
        TypeV { dims: 0, base: JBaseV::Int }
    } else if n == "long"@ {
        TypeV { dims: 0, base: JBaseV::Long }
    } else if n == "float"@ {
        TypeV { dims: 0, base: JBaseV::Float }
    } else if n == "double"@ {
        TypeV { dims: 0, base: JBaseV::Double }
    } else if n.len() >= 2 && n[n.len() - 2] == '[' && n[n.len() - 1] == ']' {
        let inner = spec_from_source_name(n.subrange(0, n.len() - 2));
        TypeV { dims: inner.dims + 1, base: inner.base }
    } else {
        TypeV { dims: 0, base: JBaseV::Object(n) }
    }
}

/// Whether a character vector holds exactly the characters of `lit`.
pub(crate) fn chars_eq_str(v: &Vec<char>, lit: &str) -> (r: bool)
    ensures
        r == (v@ == lit@),
{
    let lv = chars_of(lit);
    if v.len() != lv.len() {
        return false;
    }
    let mut i: usize = 0;
    while i < v.len()
        invariant
            i <= v@.len() == lv@.len(),
            lv@ == lit@,
            forall|k: int| 0 <= k < i ==> v@[k] == lv@[k],
        decreases v@.len() - i,
    {
        if v[i] != lv[i] {
            return false;
        }
        i += 1;
    }
    proof {
        assert(v@ =~= lit@);
    }
    true
}

fn type_from_chars(cs: Vec<char>) -> (t: Type)
    ensures
        t@ == spec_from_source_name(cs@),
    decreases cs@.len(),
{
    if chars_eq_str(&cs, "void") {
        Type::Void
    } else if chars_eq_str(&cs, "boolean") {
        Type::Boolean
    } else if chars_eq_str(&cs, "byte") {
        Type::Byte
    } else if chars_eq_str(&cs, "char") {
        Type::Char
    } else if chars_eq_str(&cs, "short") {
        Type::Short
    } else if chars_eq_str(&cs, "int") {
        Type::Int
    } else if chars_eq_str(&cs, "long") {
        Type::Long
    } else if chars_eq_str(&cs, "float") {
        Type::Float
    } else if chars_eq_str(&cs, "double") {
        Type::Double
    } else if cs.len() >= 2 && cs[cs.len() - 2] == '[' && cs[cs.len() - 1] == ']' {
        let inner = crate::parsing::copy_range(&cs, 0, cs.len() - 2);
        Type::Array(Box::new(type_from_chars(inner)))
    } else {
        Type::Object(string_of(&cs))
    }
}

impl Type {
    /// Read a type written in source form (`int`, `java.lang.String`,
    /// `byte[][]`, ...).
    pub fn from_source_name(name: String) -> (t: Type)
        ensures
            t@ == spec_from_source_name(name@),
    {
        let cs = chars_of(name.as_str());
        type_from_chars(cs)
    }
}

/// The source-language name of a non-array base.
pub open spec fn base_source_name(b: JBaseV) -> Seq<char> {
    match b {
        JBaseV::Void => "void"@,
        JBaseV::Boolean => "boolean"@,
        JBaseV::Byte => "byte"@,
        JBaseV::Char => "char"@,
        JBaseV::Short => "short"@,
        JBaseV::Int => "int"@,
        JBaseV::Long => "long"@,
        JBaseV::Float => "float"@,
        JBaseV::Double => "double"@,
        JBaseV::Object(n) => n,
    }
}

/// A non-array base with the class-name table applied: object names found in
/// the table are replaced, everything else is untouched.
pub open spec fn base_mapped(b: JBaseV, m: Map<Seq<char>, Seq<char>>) -> JBaseV {
    match b {
        JBaseV::Object(n) => if m.contains_key(n) {
            JBaseV::Object(m[n])
        } else {
            JBaseV::Object(n)
        },
        _ => b,
    }
}

pub open spec fn type_mapped(t: TypeV, m: Map<Seq<char>, Seq<char>>) -> TypeV {
    TypeV { dims: t.dims, base: base_mapped(t.base, m) }
}

pub open spec fn desc_mapped(d: DescriptorV, m: Map<Seq<char>, Seq<char>>) -> DescriptorV {
    DescriptorV {
        params: d.params.map_values(|t: TypeV| type_mapped(t, m)),
        ret: type_mapped(d.ret, m),
    }
}

/// The capability of translating class names: `class_model` is the partial
/// map this value denotes, and `map_class` answers exactly according to it.
pub trait ClassMapper: Sized {
    spec fn class_model(&self) -> Map<Seq<char>, Seq<char>>;

    fn map_class(&self, name: &str) -> (r: Option<String>)
        ensures
            match r {
                Some(t) => self.class_model().contains_key(name@)
                    && t@ == self.class_model().index(name@),
                None => !self.class_model().contains_key(name@),
            },
    ;
}

/// A value that can rewrite the class names inside itself through a
/// [`ClassMapper`].
pub trait MapSelfOnlyClass: View + Sized {
    /// The view of the rewritten value, as a function of the class table.
    spec fn class_mapped_view(self, m: Map<Seq<char>, Seq<char>>) -> Self::V;

    fn map_self<M: ClassMapper>(self, mapper: &M) -> (r: Self)
        ensures
            r@ == self.class_mapped_view(mapper.class_model()),
    ;
}

impl MapSelfOnlyClass for Type {
    open spec fn class_mapped_view(self, m: Map<Seq<char>, Seq<char>>) -> TypeV {
        type_mapped(self@, m)
    }

    fn map_self<M: ClassMapper>(self, mapper: &M) -> (r: Self)
        decreases self,
    {
        match self {
            Type::Object(name) => {
                match mapper.map_class(name.as_str()) {
                    Some(mapped) => Type::Object(mapped),
                    None => Type::Object(name),
                }
            },
            Type::Array(t) => Type::Array(Box::new((*t).map_self(mapper))),
            other => other,
        }
    }
}

impl MapSelfOnlyClass for Descriptor {
    open spec fn class_mapped_view(self, m: Map<Seq<char>, Seq<char>>) -> DescriptorV {
        desc_mapped(self@, m)
    }

    fn map_self<M: ClassMapper>(self, mapper: &M) -> (r: Self) {
        let ghost orig = self@;
        let mut rest = self.params;
        let ghost rest_orig = rest@;
        let mut params: Vec<Type> = Vec::new();
        while rest.len() > 0
            invariant
                params@.len() + rest@.len() == rest_orig.len(),
                forall|k: int|
                    0 <= k < rest@.len() ==> rest@[k]@ == rest_orig[params@.len() + k]@,
                forall|k: int|
                    0 <= k < params@.len() ==> params@[k]@ == type_mapped(
                        rest_orig[k]@,
                        mapper.class_model(),
                    ),
            decreases rest@.len(),
        {
            let t = rest.remove(0);
            params.push(t.map_self(mapper));
        }
        let r = Descriptor { params, return_type: self.return_type.map_self(mapper) };
        proof {
            assert(r@.params =~= desc_mapped(orig, mapper.class_model()).params);
            assert(r@ =~= desc_mapped(orig, mapper.class_model()));
        }
        r
    }
}

/// One class's translation: the class name in the target naming and, keyed by
/// the method identifier in the source naming, the method identifier in the
/// target naming.
pub struct ClassMapping {
    pub to_name: String,
    pub methods: Vec<(MethodId, MethodId)>,
}

#[verifier::ext_equal]
pub struct ClassMappingV {
    pub to_name: Seq<char>,
    pub methods: Seq<(MethodIdV, MethodIdV)>,
}

impl View for ClassMapping {
    type V = ClassMappingV;

    open spec fn view(&self) -> ClassMappingV {
        ClassMappingV {
            to_name: self.to_name@,
            methods: self.methods@.map_values(|p: (MethodId, MethodId)| (p.0@, p.1@)),
        }
    }
}

/// The full table of one mapping edge, keyed by the class name in the source
/// naming.  Lookup takes the first entry with a matching key; the normalizer
/// keeps keys unique.
pub struct Mappings {
    pub classes: Vec<(String, ClassMapping)>,
}

impl View for Mappings {
    type V = Seq<(Seq<char>, ClassMappingV)>;

    open spec fn view(&self) -> Seq<(Seq<char>, ClassMappingV)> {
        self.classes@.map_values(|p: (String, ClassMapping)| (p.0@, p.1@))
    }
}

/// First entry with the given key, if any.
pub open spec fn lookup_class(cs: Seq<(Seq<char>, ClassMappingV)>, name: Seq<char>) -> Option<
    ClassMappingV,
>
    decreases cs.len(),
{
    if cs.len() == 0 {
        None
    } else if cs[0].0 == name {
        Some(cs[0].1)
    } else {
        lookup_class(cs.drop_first(), name)
    }
}

pub proof fn lemma_lookup_class_skip(cs: Seq<(Seq<char>, ClassMappingV)>, name: Seq<char>, i: int)
    requires
        0 <= i <= cs.len(),
        forall|k: int| 0 <= k < i ==> cs[k].0 != name,
    ensures
        lookup_class(cs, name) == lookup_class(cs.subrange(i, cs.len() as int), name),
    decreases i,
{
    if i > 0 {
        lemma_lookup_class_skip(cs, name, i - 1);
        let s1 = cs.subrange(i - 1, cs.len() as int);
        let s2 = cs.subrange(i, cs.len() as int);
        assert(s1[0] == cs[i - 1]);
        assert(s1.drop_first() =~= s2);
    } else {
        assert(cs.subrange(0, cs.len() as int) =~= cs);
    }
}

proof fn lemma_pairs_view_concat(a: Seq<(String, MethodId)>, b: Seq<(String, MethodId)>)
    ensures
        pairs_view(a + b) == pairs_view(a) + pairs_view(b),
{
    assert(pairs_view(a + b) =~= pairs_view(a) + pairs_view(b));
}

/// The index of the first entry whose key equals `name`, if any.
fn find_class(cs: &Vec<(String, ClassMapping)>, name: &str) -> (r: Option<usize>)
    ensures
        match r {
            Some(i) => i < cs@.len() && cs@[i as int].0@ == name@ && (forall|k: int|
                0 <= k < i ==> cs@[k].0@ != name@),
            None => forall|k: int| 0 <= k < cs@.len() ==> cs@[k].0@ != name@,
        },
{
    let mut i: usize = 0;
    while i < cs.len()
        invariant
            i <= cs@.len(),
            forall|k: int| 0 <= k < i ==> cs@[k].0@ != name@,
        decreases cs@.len() - i,
    {
        if str_eq(cs[i].0.as_str(), name) {
            return Some(i);
        }
        i += 1;
    }
    None
}

/// The two facts [`find_class`] gives, carried over to the view's
/// [`lookup_class`].
proof fn lemma_find_class_view(cs: Seq<(String, ClassMapping)>, name: Seq<char>, r: Option<usize>)
    requires
        match r {
            Some(i) => i < cs.len() && cs[i as int].0@ == name && (forall|k: int|
                0 <= k < i ==> cs[k].0@ != name),
            None => forall|k: int| 0 <= k < cs.len() ==> cs[k].0@ != name,
        },
    ensures
        match r {
            Some(i) => lookup_class(
                cs.map_values(|p: (String, ClassMapping)| (p.0@, p.1@)),
                name,
            ) == Some(cs[i as int].1@),
            None => lookup_class(
                cs.map_values(|p: (String, ClassMapping)| (p.0@, p.1@)),
                name,
            ) is None,
        },
{
    let m = cs.map_values(|p: (String, ClassMapping)| (p.0@, p.1@));
    match r {
        Some(i) => {
            assert(forall|k: int| 0 <= k < i ==> m[k].0 != name);
            lemma_lookup_class_skip(m, name, i as int);
            let rest = m.subrange(i as int, m.len() as int);
            assert(rest[0] == m[i as int]);
        },
        None => {
            assert(forall|k: int| 0 <= k < m.len() ==> m[k].0 != name);
            lemma_lookup_class_skip(m, name, m.len() as int);
            assert(m.subrange(m.len() as int, m.len() as int) =~= Seq::<(
                Seq<char>,
                ClassMappingV,
            )>::empty());
        },
    }
}

/// The partial class-name map a table denotes.
pub open spec fn classes_map(cs: Seq<(Seq<char>, ClassMappingV)>) -> Map<Seq<char>, Seq<char>> {
    Map::new(
        |n: Seq<char>| lookup_class(cs, n) is Some,
        |n: Seq<char>|
            match lookup_class(cs, n) {
                Some(c) => c.to_name,
                None => Seq::empty(),
            },
    )
}

/// The method entries of one class matching a lookup: entries whose key name
/// equals `name` and, when a descriptor is given, whose key descriptor equals
/// it; each hit is returned as the class's target name paired with the target
/// method identifier.
pub open spec fn methods_matching(
    to_name: Seq<char>,
    methods: Seq<(MethodIdV, MethodIdV)>,
    name: Seq<char>,
    desc: Option<DescriptorV>,
) -> Seq<(Seq<char>, MethodIdV)>
    decreases methods.len(),
{
    if methods.len() == 0 {
        Seq::empty()
    } else {
        let rest = methods_matching(to_name, methods.drop_last(), name, desc);
        let last = methods[methods.len() - 1];
        if last.0.name == name && (desc is None || desc == Some(last.0.descriptor)) {
            rest + seq![(to_name, last.1)]
        } else {
            rest
        }
    }
}

/// The scoped lookup: the matches inside the class `cls` names, if it is
/// mapped at all.
pub open spec fn scoped_matches(
    cs: Seq<(Seq<char>, ClassMappingV)>,
    cls: Seq<char>,
    name: Seq<char>,
    desc: Option<DescriptorV>,
) -> Seq<(Seq<char>, MethodIdV)> {
    match lookup_class(cs, cls) {
        Some(c) => methods_matching(c.to_name, c.methods, name, desc),
        None => Seq::empty(),
    }
}

/// The unscoped fallback: the matches gathered over every class, in table
/// order.
pub open spec fn unscoped_matches(
    cs: Seq<(Seq<char>, ClassMappingV)>,
    name: Seq<char>,
    desc: Option<DescriptorV>,
) -> Seq<(Seq<char>, MethodIdV)>
    decreases cs.len(),
{
    if cs.len() == 0 {
        Seq::empty()
    } else {
        unscoped_matches(cs.drop_last(), name, desc) + methods_matching(
            cs[cs.len() - 1].1.to_name,
            cs[cs.len() - 1].1.methods,
            name,
            desc,
        )
    }
}

/// What a base mapper answers for a method lookup: the scoped result when it
/// is non-empty; otherwise the unscoped result when it has at most one entry;
/// otherwise nothing, so an ambiguous bare name is deliberately suppressed.
pub open spec fn base_method_model(
    cs: Seq<(Seq<char>, ClassMappingV)>,
    cls: Seq<char>,
    name: Seq<char>,
    desc: Option<DescriptorV>,
) -> Seq<(Seq<char>, MethodIdV)> {
    let scoped = scoped_matches(cs, cls, name, desc);
    if scoped.len() > 0 {
        scoped
    } else {
        let unscoped = unscoped_matches(cs, name, desc);
        if unscoped.len() <= 1 {
            unscoped
        } else {
            Seq::empty()
        }
    }
}

pub open spec fn odesc_view(d: Option<&Descriptor>) -> Option<DescriptorV> {
    match d {
        Some(x) => Some(x@),
        None => None,
    }
}

pub open spec fn pairs_view(s: Seq<(String, MethodId)>) -> Seq<(Seq<char>, MethodIdV)> {
    s.map_values(|p: (String, MethodId)| (p.0@, p.1@))
}

/// The capability of translating method names, on top of class names.
pub trait MethodMapper: ClassMapper {
    /// The candidate list this mapper answers, as a function of the inputs.
    spec fn method_model(
        &self,
        cls: Seq<char>,
        name: Seq<char>,
        desc: Option<DescriptorV>,
    ) -> Seq<(Seq<char>, MethodIdV)>;

    /// Map a class-specific method name, using the original class name to
    /// pick the class; a bare name that is found nowhere scoped is looked up
    /// over all classes and kept only when unambiguous.  Each returned pair
    /// is the owning class's target name and the target method identifier.
    fn map_method(&self, from_class_name: &str, name: &str, descriptor: Option<&Descriptor>) -> (r:
        Vec<(String, MethodId)>)
        ensures
            pairs_view(r@) == self.method_model(from_class_name@, name@, odesc_view(descriptor)),
    ;
}

/// All method entries of `c` matching the lookup, in entry order.
pub fn extract_method(name: &str, descriptor: Option<&Descriptor>, c: &ClassMapping) -> (r: Vec<
    (String, MethodId)>)
    ensures
        pairs_view(r@) == methods_matching(c@.to_name, c@.methods, name@, odesc_view(descriptor)),
{
    let mut out: Vec<(String, MethodId)> = Vec::new();
    let mut i: usize = 0;
    while i < c.methods.len()
        invariant
            i <= c.methods@.len(),
            pairs_view(out@) == methods_matching(
                c@.to_name,
                c@.methods.subrange(0, i as int),
                name@,
                odesc_view(descriptor),
            ),
        decreases c.methods@.len() - i,
    {
        let ghost prefix = c@.methods.subrange(0, i as int);
        let key = &c.methods[i].0;
        let matched = if str_eq(key.name.as_str(), name) {
            match descriptor {
                Some(d) => eq_descriptor(&key.descriptor, d),
                None => true,
            }
        } else {
            false
        };
        if matched {
            out.push((c.to_name.clone(), clone_method_id(&c.methods[i].1)));
        }
        proof {
            let next = c@.methods.subrange(0, i + 1);
            assert(next.drop_last() =~= prefix);
            assert(next[next.len() - 1] == c@.methods[i as int]);
            if matched {
                assert(pairs_view(out@) =~= methods_matching(
                    c@.to_name,
                    next,
                    name@,
                    odesc_view(descriptor),
                ));
            }
        }
        i += 1;
    }
    proof {
        assert(c@.methods.subrange(0, c@.methods.len() as int) =~= c@.methods);
    }
    out
}

/// One loaded mapping edge: a translation of names from `from` into `to` for
/// one game version, immutable once built.
pub struct BaseMapper {
    pub from: NamesType,
    pub to: NamesType,
    pub version: String,
    pub mappings: Mappings,
}

#[verifier::ext_equal]
pub struct BaseMapperV {
    pub from: NamesType,
    pub to: NamesType,
    pub version: Seq<char>,
    pub classes: Seq<(Seq<char>, ClassMappingV)>,
}

impl View for BaseMapper {
    type V = BaseMapperV;

    open spec fn view(&self) -> BaseMapperV {
        BaseMapperV {
            from: self.from,
            to: self.to,
            version: self.version@,
            classes: self.mappings@,
        }
    }
}

impl BaseMapper {
    pub fn from_names(&self) -> (r: NamesType)
        ensures
            r == self@.from,
    {
        self.from
    }

    pub fn to_names(&self) -> (r: NamesType)
        ensures
            r == self@.to,
    {
        self.to
    }
}

impl ClassMapper for BaseMapper {
    open spec fn class_model(&self) -> Map<Seq<char>, Seq<char>> {
        classes_map(self@.classes)
    }

    fn map_class(&self, name: &str) -> (r: Option<String>) {
        let cs = &self.mappings.classes;
        let found = find_class(cs, name);
        proof {
            lemma_find_class_view(cs@, name@, found);
        }
        match found {
            Some(i) => {
                proof {
                    assert(classes_map(self@.classes).contains_key(name@));
                    assert(classes_map(self@.classes)[name@] == cs@[i as int].1@.to_name);
                }
                Some(cs[i].1.to_name.clone())
            },
            None => {
                proof {
                    assert(!classes_map(self@.classes).contains_key(name@));
                }
                None
            },
        }
    }
}

impl MethodMapper for BaseMapper {
    open spec fn method_model(
        &self,
        cls: Seq<char>,
        name: Seq<char>,
        desc: Option<DescriptorV>,
    ) -> Seq<(Seq<char>, MethodIdV)> {
        base_method_model(self@.classes, cls, name, desc)
    }

    fn map_method(&self, from_class_name: &str, name: &str, descriptor: Option<&Descriptor>) -> (r:
        Vec<(String, MethodId)>) {
        let cs = &self.mappings.classes;
        // Scoped lookup: find the class, then match inside it.
        let found = find_class(cs, from_class_name);
        proof {
            lemma_find_class_view(cs@, from_class_name@, found);
        }
        if let Some(i) = found {
            let scoped = extract_method(name, descriptor, &cs[i].1);
            proof {
                assert(scoped_matches(
                    self@.classes,
                    from_class_name@,
                    name@,
                    odesc_view(descriptor),
                ) == methods_matching(
                    cs@[i as int].1@.to_name,
                    cs@[i as int].1@.methods,
                    name@,
                    odesc_view(descriptor),
                ));
            }
            if scoped.len() > 0 {
                return scoped;
            }
            proof {
                assert(pairs_view(scoped@).len() == 0);
            }
        }
        proof {
            assert(scoped_matches(
                self@.classes,
                from_class_name@,
                name@,
                odesc_view(descriptor),
            ).len() == 0);
        }
        // Unscoped fallback over every class, in table order.
        let mut acc: Vec<(String, MethodId)> = Vec::new();
        let mut j: usize = 0;
        while j < cs.len()
            invariant
                j <= cs@.len(),
                cs@ == self.mappings.classes@,
                self@.classes.len() == cs@.len(),
                pairs_view(acc@) == unscoped_matches(
                    self@.classes.subrange(0, j as int),
                    name@,
                    odesc_view(descriptor),
                ),
                scoped_matches(
                    self@.classes,
                    from_class_name@,
                    name@,
                    odesc_view(descriptor),
                ).len() == 0,
            decreases cs@.len() - j,
        {
            let ghost acc_old = acc@;
            let ghost prefix = self@.classes.subrange(0, j as int);
            let mut part = extract_method(name, descriptor, &cs[j].1);
            let ghost part_seq = part@;
            acc.append(&mut part);
            proof {
                lemma_pairs_view_concat(acc_old, part_seq);
                assert(self@.classes[j as int] == (cs@[j as int].0@, cs@[j as int].1@));
                let next = self@.classes.subrange(0, j + 1);
                assert(next.drop_last() =~= prefix);
                assert(next[next.len() - 1] == self@.classes[j as int]);
            }
            j += 1;
        }
        proof {
            assert(self@.classes.subrange(0, cs@.len() as int) =~= self@.classes);
        }
        if acc.len() <= 1 {
            acc
        } else {
            let empty: Vec<(String, MethodId)> = Vec::new();
            proof {
                assert(pairs_view(empty@) =~= Seq::<(Seq<char>, MethodIdV)>::empty());
            }
            empty
        }
    }
}


/// The class translation a chain of base mappers denotes, threading the name
/// through every step; one missing step makes the whole result missing.
pub open spec fn chain_thread(ms: Seq<BaseMapper>, name: Seq<char>) -> Option<Seq<char>>
    decreases ms.len(),
{
    if ms.len() == 0 {
        Some(name)
    } else {
        match lookup_class(ms[0]@.classes, name) {
            None => None,
            Some(c) => chain_thread(ms.drop_first(), c.to_name),
        }
    }
}

/// As the composite answers it: an empty chain maps nothing.
pub open spec fn chain_class(ms: Seq<BaseMapper>, name: Seq<char>) -> Option<Seq<char>> {
    if ms.len() == 0 {
        None
    } else {
        chain_thread(ms, name)
    }
}

/// One composite step applied to every candidate, keeping candidate order.
pub open spec fn step_all(m: BaseMapper, cands: Seq<(Seq<char>, MethodIdV)>) -> Seq<
    (Seq<char>, MethodIdV)>
    decreases cands.len(),
{
    if cands.len() == 0 {
        Seq::empty()
    } else {
        let last = cands[cands.len() - 1];
        step_all(m, cands.drop_last()) + base_method_model(
            m@.classes,
            last.0,
            last.1.name,
            Some(last.1.descriptor),
        )
    }
}

pub open spec fn multi_steps(ms: Seq<BaseMapper>, cands: Seq<(Seq<char>, MethodIdV)>) -> Seq<
    (Seq<char>, MethodIdV)>
    decreases ms.len(),
{
    if ms.len() == 0 {
        cands
    } else {
        multi_steps(ms.drop_first(), step_all(ms[0], cands))
    }
}

/// What the composite answers for a method lookup: the first mapper is asked
/// with the caller's inputs, and each later mapper is asked once per
/// candidate, with that candidate's class, name and descriptor.
pub open spec fn multi_method_model(
    ms: Seq<BaseMapper>,
    cls: Seq<char>,
    name: Seq<char>,
    desc: Option<DescriptorV>,
) -> Seq<(Seq<char>, MethodIdV)> {
    if ms.len() == 0 {
        Seq::empty()
    } else {
        multi_steps(ms.drop_first(), base_method_model(ms[0]@.classes, cls, name, desc))
    }
}

/// The adjacency invariant of a composite: non-empty, and each step ends in
/// the naming the next one starts from.
pub open spec fn composite_wf(ms: Seq<BaseMapper>) -> bool {
    ms.len() >= 1 && forall|i: int| 0 <= i < ms.len() - 1 ==> ms[i]@.to == #[trigger] ms[i + 1]@.from
}

/// An ordered chain of base mappers applied one after another.
pub struct MultiMapper {
    mappers: Vec<BaseMapper>,
}

impl View for MultiMapper {
    type V = Seq<BaseMapper>;

    closed spec fn view(&self) -> Seq<BaseMapper> {
        self.mappers@
    }
}

impl MultiMapper {
    /// Build a composite, refusing a chain that is empty or whose endpoints
    /// do not line up.
    pub fn new(mappers: Vec<BaseMapper>) -> (r: Result<MultiMapper, SPError>)
        ensures
            match r {
                Ok(m) => m@ == mappers@ && composite_wf(mappers@),
                Err(e) => !composite_wf(mappers@) && e.kind == ErrorKind::InternalInvariant,
            },
    {
        if mappers.len() == 0 {
            return Err(SPError::new(ErrorKind::InternalInvariant));
        }
        let mut i: usize = 0;
        while i < mappers.len() - 1
            invariant
                mappers@.len() >= 1,
                i < mappers@.len(),
                forall|k: int| 0 <= k < i ==> mappers@[k]@.to == #[trigger] mappers@[k + 1]@.from,
            decreases mappers@.len() - i,
        {
            if mappers[i].to != mappers[i + 1].from {
                proof {
                    assert(mappers@[i as int]@.to != mappers@[i as int + 1]@.from);
                }
                return Err(SPError::new(ErrorKind::InternalInvariant));
            }
            i += 1;
        }
        Ok(MultiMapper { mappers })
    }

    /// The chain, first mapper first.
    pub fn mappers(&self) -> (r: &Vec<BaseMapper>)
        ensures
            r@ == self@,
    {
        &self.mappers
    }
}

impl ClassMapper for MultiMapper {
    open spec fn class_model(&self) -> Map<Seq<char>, Seq<char>> {
        Map::new(
            |n: Seq<char>| chain_class(self@, n) is Some,
            |n: Seq<char>|
                match chain_class(self@, n) {
                    Some(t) => t,
                    None => Seq::empty(),
                },
        )
    }

    fn map_class(&self, name: &str) -> (r: Option<String>) {
        if self.mappers.len() == 0 {
            return None;
        }
        let mut cur: String = name.to_owned();
        proof {
            assert(self.mappers@.subrange(0, self.mappers@.len() as int) =~= self.mappers@);
        }
        let mut i: usize = 0;
        while i < self.mappers.len()
            invariant
                i <= self.mappers@.len(),
                self.mappers@.len() > 0,
                chain_thread(self.mappers@.subrange(i as int, self.mappers@.len() as int), cur@)
                    == chain_thread(self.mappers@, name@),
            decreases self.mappers@.len() - i,
        {
            let ghost rest = self.mappers@.subrange(i as int, self.mappers@.len() as int);
            proof {
                assert(rest[0] == self.mappers@[i as int]);
                assert(rest.drop_first() =~= self.mappers@.subrange(
                    i + 1,
                    self.mappers@.len() as int,
                ));
            }
            match self.mappers[i].map_class(cur.as_str()) {
                Some(next) => {
                    proof {
                        assert(lookup_class(self.mappers@[i as int]@.classes, cur@) is Some);
                    }
                    cur = next;
                },
                None => {
                    proof {
                        assert(chain_thread(rest, cur@) is None);
                    }
                    return None;
                },
            }
            i += 1;
        }
        proof {
            assert(self.mappers@.subrange(
                self.mappers@.len() as int,
                self.mappers@.len() as int,
            ) =~= Seq::<BaseMapper>::empty());
            assert(chain_class(self.mappers@, name@) == Some(cur@));
        }
        Some(cur)
    }
}

impl MethodMapper for MultiMapper {
    open spec fn method_model(
        &self,
        cls: Seq<char>,
        name: Seq<char>,
        desc: Option<DescriptorV>,
    ) -> Seq<(Seq<char>, MethodIdV)> {
        multi_method_model(self@, cls, name, desc)
    }

    fn map_method(&self, from_class_name: &str, name: &str, descriptor: Option<&Descriptor>) -> (r:
        Vec<(String, MethodId)>) {
        if self.mappers.len() == 0 {
            let empty: Vec<(String, MethodId)> = Vec::new();
            proof {
                assert(pairs_view(empty@) =~= Seq::<(Seq<char>, MethodIdV)>::empty());
            }
            return empty;
        }
        let mut cur = self.mappers[0].map_method(from_class_name, name, descriptor);
        let mut i: usize = 1;
        while i < self.mappers.len()
            invariant
                1 <= i <= self.mappers@.len(),
                self.mappers@.len() > 0,
                multi_steps(
                    self.mappers@.subrange(i as int, self.mappers@.len() as int),
                    pairs_view(cur@),
                ) == multi_method_model(
                    self.mappers@,
                    from_class_name@,
                    name@,
                    odesc_view(descriptor),
                ),
            decreases self.mappers@.len() - i,
        {
            let ghost rest = self.mappers@.subrange(i as int, self.mappers@.len() as int);
            let m = &self.mappers[i];
            let mut next: Vec<(String, MethodId)> = Vec::new();
            let mut k: usize = 0;
            while k < cur.len()
                invariant
                    k <= cur@.len(),
                    m == self.mappers@[i as int],
                    i < self.mappers@.len(),
                    pairs_view(next@) == step_all(
                        self.mappers@[i as int],
                        pairs_view(cur@).subrange(0, k as int),
                    ),
                decreases cur@.len() - k,
            {
                let ghost next_old = next@;
                let ghost prefix = pairs_view(cur@).subrange(0, k as int);
                let mut part = m.map_method(
                    cur[k].0.as_str(),
                    cur[k].1.name.as_str(),
                    Some(&cur[k].1.descriptor),
                );
                let ghost part_seq = part@;
                next.append(&mut part);
                proof {
                    lemma_pairs_view_concat(next_old, part_seq);
                    assert(pairs_view(cur@)[k as int] == (cur@[k as int].0@, cur@[k as int].1@));
                    let ext = pairs_view(cur@).subrange(0, k + 1);
                    assert(ext.drop_last() =~= prefix);
                    assert(ext[ext.len() - 1] == pairs_view(cur@)[k as int]);
                }
                k += 1;
            }
            proof {
                assert(pairs_view(cur@).subrange(0, cur@.len() as int) =~= pairs_view(cur@));
                assert(rest[0] == self.mappers@[i as int]);
                assert(rest.drop_first() =~= self.mappers@.subrange(
                    i + 1,
                    self.mappers@.len() as int,
                ));
            }
            cur = next;
            i += 1;
        }
        proof {
            assert(self.mappers@.subrange(
                self.mappers@.len() as int,
                self.mappers@.len() as int,
            ) =~= Seq::<BaseMapper>::empty());
        }
        cur
    }
}

/// Either a single loaded edge or a composite chain.
pub enum EitherMapper {
    Base(BaseMapper),
    Multi(MultiMapper),
}

impl ClassMapper for EitherMapper {
    open spec fn class_model(&self) -> Map<Seq<char>, Seq<char>> {
        match self {
            EitherMapper::Base(m) => m.class_model(),
            EitherMapper::Multi(m) => m.class_model(),
        }
    }

    fn map_class(&self, name: &str) -> (r: Option<String>) {
        match self {
            EitherMapper::Base(m) => m.map_class(name),
            EitherMapper::Multi(m) => m.map_class(name),
        }
    }
}

impl MethodMapper for EitherMapper {
    open spec fn method_model(
        &self,
        cls: Seq<char>,
        name: Seq<char>,
        desc: Option<DescriptorV>,
    ) -> Seq<(Seq<char>, MethodIdV)> {
        match self {
            EitherMapper::Base(m) => m.method_model(cls, name, desc),
            EitherMapper::Multi(m) => m.method_model(cls, name, desc),
        }
    }

    fn map_method(&self, from_class_name: &str, name: &str, descriptor: Option<&Descriptor>) -> (r:
        Vec<(String, MethodId)>) {
        match self {
            EitherMapper::Base(m) => m.map_method(from_class_name, name, descriptor),
            EitherMapper::Multi(m) => m.map_method(from_class_name, name, descriptor),
        }
    }
}

/// Which loader a graph edge stands for.
#[derive(Debug, Clone, Copy, PartialEq, Eq, Structural, Hash)]
pub enum MappingType {
    ObfToMojang,
    MojangToObf,
    ObfToFabricIntermediary,
    FabricIntermediaryToObf,
}

impl MappingType {
    /// The naming the loaded edge starts from.
    pub open spec fn spec_from(self) -> NamesType {
        match self {
            MappingType::ObfToMojang => NamesType::Obfuscated,
            MappingType::MojangToObf => NamesType::Mojang,
            MappingType::ObfToFabricIntermediary => NamesType::Obfuscated,
            MappingType::FabricIntermediaryToObf => NamesType::FabricIntermediary,
        }
    }

    /// The naming the loaded edge ends in.
    pub open spec fn spec_to(self) -> NamesType {
        match self {
            MappingType::ObfToMojang => NamesType::Mojang,
            MappingType::MojangToObf => NamesType::Obfuscated,
            MappingType::ObfToFabricIntermediary => NamesType::FabricIntermediary,
            MappingType::FabricIntermediaryToObf => NamesType::Obfuscated,
        }
    }
}

/// The artifact an edge loader consumes: proguard text for the vendor
/// edges, the intermediary jar for the Fabric edges.
pub enum MappingData {
    ProguardText(String),
    IntermediaryJar(Vec<u8>),
}

/// Whether an edge's fetched artifact is of the matching kind and loads: for
/// the vendor edges the text is a proguard file, for the Fabric edges the jar
/// holds a readable tiny-v2 entry in the `official`/`intermediary`
/// namespaces.
pub open spec fn edge_load_ok(edge: MappingType, data: MappingData) -> bool {
    match edge {
        MappingType::ObfToMojang | MappingType::MojangToObf => match data {
            MappingData::ProguardText(text) => crate::mappings::proguard::spec_proguard(
                text@,
            ) is Some,
            MappingData::IntermediaryJar(_) => false,
        },
        MappingType::ObfToFabricIntermediary | MappingType::FabricIntermediaryToObf => match data {
            MappingData::IntermediaryJar(jar) => {
                let entry = crate::mappings::fabric_intermediary::zip_text_of(
                    jar@,
                    crate::mappings::fabric_intermediary::spec_tiny_entry_name(),
                );
                &&& entry is Some
                &&& crate::mappings::tiny::spec_tiny_v2(entry->Some_0) is Some
                &&& crate::mappings::tiny::spec_tiny_v2(
                    entry->Some_0,
                )->Some_0.header.namespace_a == "official"@
                &&& crate::mappings::tiny::spec_tiny_v2(
                    entry->Some_0,
                )->Some_0.header.namespace_b == "intermediary"@
            },
            MappingData::ProguardText(_) => false,
        },
    }
}

/// The mapping table an edge's mapper carries when its artifact loads: the
/// parsed file normalized in this edge's direction.
pub open spec fn edge_load_classes(edge: MappingType, data: MappingData) -> Seq<
    (Seq<char>, ClassMappingV)> {
    match edge {
        MappingType::ObfToMojang | MappingType::MojangToObf => match data {
            MappingData::ProguardText(text) => crate::mappings::raw::convert_model(
                crate::mappings::proguard::spec_proguard(text@)->Some_0,
                edge == MappingType::ObfToMojang,
            ),
            MappingData::IntermediaryJar(_) => Seq::empty(),
        },
        MappingType::ObfToFabricIntermediary | MappingType::FabricIntermediaryToObf => match data {
            MappingData::IntermediaryJar(jar) => crate::mappings::raw::convert_model(
                crate::mappings::fabric_intermediary::fabric_raws(
                    crate::mappings::tiny::spec_tiny_v2(
                        crate::mappings::fabric_intermediary::zip_text_of(
                            jar@,
                            crate::mappings::fabric_intermediary::spec_tiny_entry_name(),
                        )->Some_0,
                    )->Some_0.classes,
                ),
                edge == MappingType::FabricIntermediaryToObf,
            ),
            MappingData::ProguardText(_) => Seq::empty(),
        },
    }
}

impl MappingType {
    /// Build this edge's base mapper from its fetched artifact.  It succeeds
    /// exactly when the artifact is of this edge's kind and loads, and then
    /// carries this edge's endpoints and the artifact's normalized table;
    /// handing an edge the wrong artifact kind is an internal-invariant
    /// error.
    pub fn load(self, version: String, data: MappingData) -> (r: Result<BaseMapper, SPError>)
        ensures
            match r {
                Ok(b) => {
                    &&& edge_load_ok(self, data)
                    &&& b@.from == self.spec_from()
                    &&& b@.to == self.spec_to()
                    &&& b@.version == version@
                    &&& b@.classes == edge_load_classes(self, data)
                },
                Err(e) => {
                    &&& !edge_load_ok(self, data)
                    &&& (e.kind == ErrorKind::InternalInvariant || e.kind
                        == ErrorKind::FormatFailure || e.kind == ErrorKind::IoFailure)
                },
            },
            (self == MappingType::ObfToMojang || self == MappingType::MojangToObf) && !(
            data is ProguardText) ==> r is Err && r->Err_0.kind == ErrorKind::InternalInvariant,
            (self == MappingType::ObfToFabricIntermediary || self
                == MappingType::FabricIntermediaryToObf) && !(data is IntermediaryJar) ==> r is Err
                && r->Err_0.kind == ErrorKind::InternalInvariant,
    {
        match self {
            MappingType::ObfToMojang | MappingType::MojangToObf => {
                let text = match data {
                    MappingData::ProguardText(t) => t,
                    MappingData::IntermediaryJar(_) => {
                        let mut e = SPError::new(ErrorKind::InternalInvariant);
                        e.attach("a vendor edge was handed a jar artifact".to_owned());
                        return Err(e);
                    },
                };
                let moj_to_obf = match self {
                    MappingType::MojangToObf => true,
                    _ => false,
                };
                crate::mappings::mojang::load(version, moj_to_obf, text.as_str())
            },
            MappingType::ObfToFabricIntermediary | MappingType::FabricIntermediaryToObf => {
                let jar = match data {
                    MappingData::IntermediaryJar(b) => b,
                    MappingData::ProguardText(_) => {
                        let mut e = SPError::new(ErrorKind::InternalInvariant);
                        e.attach("a Fabric edge was handed a text artifact".to_owned());
                        return Err(e);
                    },
                };
                let obf_to_fabric = match self {
                    MappingType::ObfToFabricIntermediary => true,
                    _ => false,
                };
                crate::mappings::fabric_intermediary::load(version, obf_to_fabric, &jar)
            },
        }
    }
}

/// Each source class appears at most once in a mapping table.
pub open spec fn unique_class_keys(cs: Seq<(Seq<char>, ClassMappingV)>) -> bool {
    forall|i: int, j: int| 0 <= i < j < cs.len() ==> (#[trigger] cs[i]).0 != (#[trigger] cs[j]).0
}

/// Wrap loaded edges as the mapper for a requested conversion, checking that
/// what was loaded really is the requested chain: the first edge starts at
/// `from`, the last ends at `to`, and each edge starts where the previous one
/// ended.  A mismatch is an internal-invariant error, never a wrong mapper.
pub fn build_mapper(from: NamesType, to: NamesType, loaded: Vec<BaseMapper>) -> (r: Result<
    EitherMapper,
    SPError,
>)
    ensures
        match r {
            Ok(m) => {
                &&& composite_wf(loaded@)
                &&& loaded@[0]@.from == from
                &&& loaded@[loaded@.len() - 1]@.to == to
                &&& match m {
                    EitherMapper::Base(b) => loaded@.len() == 1 && b == loaded@[0],
                    EitherMapper::Multi(mm) => loaded@.len() > 1 && mm@ == loaded@,
                }
            },
            Err(e) => {
                &&& !(composite_wf(loaded@) && loaded@.len() > 0 && loaded@[0]@.from == from
                    && loaded@[loaded@.len() - 1]@.to == to)
                &&& e.kind == ErrorKind::InternalInvariant
            },
        },
{
    if loaded.len() == 0 {
        return Err(SPError::new(ErrorKind::InternalInvariant));
    }
    if loaded[0].from != from {
        return Err(SPError::new(ErrorKind::InternalInvariant));
    }
    if loaded[loaded.len() - 1].to != to {
        return Err(SPError::new(ErrorKind::InternalInvariant));
    }
    if loaded.len() == 1 {
        let ghost l0 = loaded@;
        let mut v = loaded;
        let only = v.remove(0);
        proof {
            assert(composite_wf(l0));
        }
        return Ok(EitherMapper::Base(only));
    }
    match MultiMapper::new(loaded) {
        Ok(m) => Ok(EitherMapper::Multi(m)),
        Err(e) => Err(e),
    }
}

/// First value with the given key in a plain name table.
pub open spec fn lookup_name(cs: Seq<(Seq<char>, Seq<char>)>, name: Seq<char>) -> Option<Seq<char>>
    decreases cs.len(),
{
    if cs.len() == 0 {
        None
    } else if cs[0].0 == name {
        Some(cs[0].1)
    } else {
        lookup_name(cs.drop_first(), name)
    }
}

proof fn lemma_lookup_name_skip(cs: Seq<(Seq<char>, Seq<char>)>, name: Seq<char>, i: int)
    requires
        0 <= i <= cs.len(),
        forall|k: int| 0 <= k < i ==> cs[k].0 != name,
    ensures
        lookup_name(cs, name) == lookup_name(cs.subrange(i, cs.len() as int), name),
    decreases i,
{
    if i > 0 {
        lemma_lookup_name_skip(cs, name, i - 1);
        let s1 = cs.subrange(i - 1, cs.len() as int);
        let s2 = cs.subrange(i, cs.len() as int);
        assert(s1[0] == cs[i - 1]);
        assert(s1.drop_first() =~= s2);
    } else {
        assert(cs.subrange(0, cs.len() as int) =~= cs);
    }
}

/// The partial map a plain name table denotes, first entry winning.
pub open spec fn name_map(cs: Seq<(Seq<char>, Seq<char>)>) -> Map<Seq<char>, Seq<char>> {
    Map::new(
        |n: Seq<char>| lookup_name(cs, n) is Some,
        |n: Seq<char>|
            match lookup_name(cs, n) {
                Some(t) => t,
                None => Seq::empty(),
            },
    )
}

/// A class mapper backed by a plain name table, used by the normalizer to
/// remap the classes inside descriptors.
pub struct FnClassMapper {
    table: Vec<(String, String)>,
}

impl View for FnClassMapper {
    type V = Seq<(Seq<char>, Seq<char>)>;

    closed spec fn view(&self) -> Seq<(Seq<char>, Seq<char>)> {
        self.table@.map_values(|p: (String, String)| (p.0@, p.1@))
    }
}

impl FnClassMapper {
    pub fn new(table: Vec<(String, String)>) -> (r: FnClassMapper)
        ensures
            r@ == table@.map_values(|p: (String, String)| (p.0@, p.1@)),
    {
        FnClassMapper { table }
    }
}

impl ClassMapper for FnClassMapper {
    open spec fn class_model(&self) -> Map<Seq<char>, Seq<char>> {
        name_map(self@)
    }

    fn map_class(&self, name: &str) -> (r: Option<String>) {
        let mut i: usize = 0;
        while i < self.table.len()
            invariant
                i <= self.table@.len(),
                forall|k: int| 0 <= k < i ==> self@[k].0 != name@,
            decreases self.table@.len() - i,
        {
            proof {
                assert(self@[i as int] == (self.table@[i as int].0@, self.table@[i as int].1@));
            }
            if str_eq(self.table[i].0.as_str(), name) {
                proof {
                    lemma_lookup_name_skip(self@, name@, i as int);
                    let rest = self@.subrange(i as int, self@.len() as int);
                    assert(rest[0] == self@[i as int]);
                }
                return Some(self.table[i].1.clone());
            }
            i += 1;
        }
        proof {
            lemma_lookup_name_skip(self@, name@, self@.len() as int);
            assert(self@.subrange(self@.len() as int, self@.len() as int) =~= Seq::<(
                Seq<char>,
                Seq<char>,
            )>::empty());
        }
        None
    }
}

/// Unscoped ambiguity suppression: when the class is unmapped and the bare
/// name occurs more than once over all classes, a method lookup answers
/// nothing, so the rewriter leaves the original name untouched.
pub proof fn lemma_unscoped_ambiguity_suppressed(
    cs: Seq<(Seq<char>, ClassMappingV)>,
    cls: Seq<char>,
    name: Seq<char>,
    desc: Option<DescriptorV>,
)
    requires
        lookup_class(cs, cls) is None,
        unscoped_matches(cs, name, desc).len() >= 2,
    ensures
        base_method_model(cs, cls, name, desc) == Seq::<(Seq<char>, MethodIdV)>::empty(),
{
}

/// Composite adjacency: in a well-formed composite every step ends in the
/// naming the next one starts from.
pub proof fn lemma_composite_adjacency(ms: Seq<BaseMapper>, i: int)
    requires
        composite_wf(ms),
        0 <= i < ms.len() - 1,
    ensures
        ms[i]@.to == ms[i + 1]@.from,
{
}
} // verus!
