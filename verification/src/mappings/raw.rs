//! The normalizer: turns a format-specific parse tree, presented as raw
//! class and method name pairs, into a [`BaseMapper`], optionally flipping
//! its direction.
use vstd::prelude::*;

use crate::mappings::{
    classes_map, clone_descriptor, desc_mapped, lemma_lookup_class_skip, lookup_class,
    name_map, type_mapped, BaseMapper, ClassMapper, ClassMapping, ClassMappingV,
    DescriptorV, Descriptor, FnClassMapper, MapSelfOnlyClass, Mappings, MethodId, MethodIdV,
};
use crate::names::NamesType;

verus! {

/// One class as a mapping format presents it: the (primary, secondary) name
/// pair and its methods.
pub struct RawClassMapping {
    pub mapping: (String, String),
    pub methods: Vec<RawMethodMapping>,
}

/// One method: its descriptor in the primary naming and its (primary,
/// secondary) name pair.
pub struct RawMethodMapping {
    pub descriptor: Descriptor,
    pub mapping: (String, String),
}

#[verifier::ext_equal]
pub struct RawMethodV {
    pub descriptor: DescriptorV,
    pub mapping: (Seq<char>, Seq<char>),
}

#[verifier::ext_equal]
pub struct RawClassV {
    pub mapping: (Seq<char>, Seq<char>),
    pub methods: Seq<RawMethodV>,
}

impl View for RawMethodMapping {
    type V = RawMethodV;

    open spec fn view(&self) -> RawMethodV {
        RawMethodV { descriptor: self.descriptor@, mapping: (self.mapping.0@, self.mapping.1@) }
    }
}

impl View for RawClassMapping {
    type V = RawClassV;

    open spec fn view(&self) -> RawClassV {
        RawClassV {
            mapping: (self.mapping.0@, self.mapping.1@),
            methods: self.methods@.map_values(|m: RawMethodMapping| m@),
        }
    }
}

/// The views of a list of raw classes.
pub open spec fn raw_classes_view(s: Seq<RawClassMapping>) -> Seq<RawClassV> {
    s.map_values(|c: RawClassMapping| c@)
}

pub open spec fn spec_flip<T>(should_flip: bool, p: (T, T)) -> (T, T) {
    if should_flip {
        (p.1, p.0)
    } else {
        p
    }
}

/// Swap a pair when asked to.
pub fn do_flip<T>(should_flip: bool, p: (T, T)) -> (r: (T, T))
    ensures
        r == spec_flip(should_flip, p),
{
    if should_flip {
        (p.1, p.0)
    } else {
        p
    }
}

/// The primary-to-secondary class-name table the normalizer resolves
/// descriptor classes through, first entry winning.
pub open spec fn class_table_model(raws: Seq<RawClassV>) -> Map<Seq<char>, Seq<char>> {
    name_map(raws.map_values(|c: RawClassV| c.mapping))
}

/// One method entry after normalizing: the key keeps the primary descriptor,
/// the value carries the descriptor with every object type remapped through
/// the class table; flipping swaps key and value.
pub open spec fn convert_method_model(
    m: RawMethodV,
    table: Map<Seq<char>, Seq<char>>,
    should_flip: bool,
) -> (MethodIdV, MethodIdV) {
    spec_flip(
        should_flip,
        (
            MethodIdV { name: m.mapping.0, descriptor: m.descriptor },
            MethodIdV { name: m.mapping.1, descriptor: desc_mapped(m.descriptor, table) },
        ),
    )
}

pub open spec fn convert_class_model(
    c: RawClassV,
    table: Map<Seq<char>, Seq<char>>,
    should_flip: bool,
) -> (Seq<char>, ClassMappingV) {
    let names = spec_flip(should_flip, c.mapping);
    (
        names.0,
        ClassMappingV {
            to_name: names.1,
            methods: c.methods.map_values(
                |m: RawMethodV| convert_method_model(m, table, should_flip),
            ),
        },
    )
}

pub open spec fn convert_model(raws: Seq<RawClassV>, should_flip: bool) -> Seq<
    (Seq<char>, ClassMappingV)> {
    raws.map_values(
        |c: RawClassV| convert_class_model(c, class_table_model(raws), should_flip),
    )
}

/// Normalize raw mappings into a [`BaseMapper`].
///
/// The class table is accumulated over the whole input first, so descriptor
/// classes resolve no matter where their class stands in the input; each
/// method value's descriptor is the primary descriptor with every object
/// type remapped through that table, classes without a mapping staying
/// unchanged.  With `should_flip` the naming types and every (key, value)
/// pair are swapped.
pub fn convert_mappings(
    primary_nt: NamesType,
    secondary_nt: NamesType,
    version: String,
    mappings: Vec<RawClassMapping>,
    should_flip: bool,
) -> (r: BaseMapper)
    ensures
        r@.from == spec_flip(should_flip, (primary_nt, secondary_nt)).0,
        r@.to == spec_flip(should_flip, (primary_nt, secondary_nt)).1,
        r@.version == version@,
        r@.classes == convert_model(raw_classes_view(mappings@), should_flip),
{
    let ghost raws = raw_classes_view(mappings@);
    let mut table: Vec<(String, String)> = Vec::new();
    let mut i: usize = 0;
    while i < mappings.len()
        invariant
            i <= mappings@.len(),
            raws == raw_classes_view(mappings@),
            table@.len() == i,
            forall|k: int|
                0 <= k < i ==> (#[trigger] table@[k].0@, table@[k].1@) == raws[k].mapping,
        decreases mappings@.len() - i,
    {
        table.push((mappings[i].mapping.0.clone(), mappings[i].mapping.1.clone()));
        proof {
            assert(raws[i as int] == mappings@[i as int]@);
        }
        i += 1;
    }
    let table = FnClassMapper::new(table);
    proof {
        assert(table@ =~= raws.map_values(|c: RawClassV| c.mapping));
        assert(table.class_model() == class_table_model(raws));
    }

    let mut rest = mappings;
    let mut classes: Vec<(String, ClassMapping)> = Vec::new();
    while rest.len() > 0
        invariant
            classes@.len() + rest@.len() == raws.len(),
            forall|k: int| 0 <= k < rest@.len() ==> rest@[k]@ == raws[classes@.len() + k],
            table.class_model() == class_table_model(raws),
            forall|k: int|
                0 <= k < classes@.len() ==> (classes@[k].0@, classes@[k].1@)
                    == convert_class_model(raws[k], class_table_model(raws), should_flip),
        decreases rest@.len(),
    {
        let ghost done = classes@.len() as int;
        let c = rest.remove(0);
        let ghost cv = c@;
        let names = do_flip(should_flip, c.mapping);
        let mut methods: Vec<(MethodId, MethodId)> = Vec::new();
        let mut ms = c.methods;
        while ms.len() > 0
            invariant
                methods@.len() + ms@.len() == cv.methods.len(),
                forall|k: int| 0 <= k < ms@.len() ==> ms@[k]@ == cv.methods[methods@.len() + k],
                table.class_model() == class_table_model(raws),
                forall|k: int|
                    0 <= k < methods@.len() ==> (methods@[k].0@, methods@[k].1@)
                        == convert_method_model(
                        cv.methods[k],
                        class_table_model(raws),
                        should_flip,
                    ),
            decreases ms@.len(),
        {
            let m = rest_method(&mut ms);
            let first = MethodId {
                name: m.mapping.0,
                descriptor: clone_descriptor(&m.descriptor),
            };
            let second_desc = m.descriptor.map_self(&table);
            let second = MethodId { name: m.mapping.1, descriptor: second_desc };
            let pair = do_flip(should_flip, (first, second));
            methods.push(pair);
        }
        let cm = ClassMapping { to_name: names.1, methods };
        proof {
            assert(cm@.methods =~= cv.methods.map_values(
                |m: RawMethodV| convert_method_model(m, class_table_model(raws), should_flip),
            ));
            assert((names.0@, cm@) =~= convert_class_model(
                cv,
                class_table_model(raws),
                should_flip,
            ));
        }
        classes.push((names.0, cm));
    }
    let r = BaseMapper {
        from: do_flip(should_flip, (primary_nt, secondary_nt)).0,
        to: do_flip(should_flip, (primary_nt, secondary_nt)).1,
        version,
        mappings: Mappings { classes },
    };
    proof {
        assert(r@.classes =~= convert_model(raws, should_flip));
    }
    r
}

/// Take the first remaining method off the list.
fn rest_method(ms: &mut Vec<RawMethodMapping>) -> (r: RawMethodMapping)
    requires
        old(ms)@.len() > 0,
    ensures
        r == old(ms)@[0],
        final(ms)@ == old(ms)@.drop_first(),
{
    let r = ms.remove(0);
    proof {
        assert(final(ms)@ =~= old(ms)@.drop_first());
    }
    r
}


/// Descriptor remap commutes with class remap: mapping a descriptor through
/// the normalizer's class table is exactly mapping each of its types, and so
/// each object name in it, individually.
pub proof fn lemma_descriptor_remap_pointwise(d: DescriptorV, m: Map<Seq<char>, Seq<char>>)
    ensures
        desc_mapped(d, m).ret == type_mapped(d.ret, m),
        desc_mapped(d, m).params.len() == d.params.len(),
        forall|i: int|
            0 <= i < d.params.len() ==> desc_mapped(d, m).params[i] == type_mapped(
                #[trigger] d.params[i],
                m,
            ),
{
}

proof fn lemma_lookup_some_index(cs: Seq<(Seq<char>, ClassMappingV)>, name: Seq<char>)
    requires
        lookup_class(cs, name) is Some,
    ensures
        exists|k: int|
            0 <= k < cs.len() && (#[trigger] cs[k]).0 == name && lookup_class(cs, name) == Some(
                cs[k].1,
            ),
    decreases cs.len(),
{
    if cs[0].0 == name {
        assert(cs[0].0 == name && lookup_class(cs, name) == Some(cs[0].1));
    } else {
        lemma_lookup_some_index(cs.drop_first(), name);
        let k = choose|k: int|
            0 <= k < cs.drop_first().len() && (#[trigger] cs.drop_first()[k]).0 == name
                && lookup_class(cs.drop_first(), name) == Some(cs.drop_first()[k].1);
        assert(cs.drop_first()[k] == cs[k + 1]);
        assert(cs[k + 1].0 == name && lookup_class(cs, name) == Some(cs[k + 1].1));
    }
}

/// Map-class round-trip: when the raw table has no repeated primary name and
/// no repeated secondary name, a class the forward normalization maps is
/// mapped back to itself by the flipped normalization.
pub proof fn lemma_class_round_trip(raws: Seq<RawClassV>, c: Seq<char>)
    requires
        forall|i: int, j: int|
            0 <= i < j < raws.len() ==> (#[trigger] raws[i].mapping).0 != (
            #[trigger] raws[j].mapping).0,
        forall|i: int, j: int|
            0 <= i < j < raws.len() ==> (#[trigger] raws[i].mapping).1 != (
            #[trigger] raws[j].mapping).1,
        classes_map(convert_model(raws, false)).contains_key(c),
    ensures
        classes_map(convert_model(raws, true)).contains_key(
            classes_map(convert_model(raws, false))[c],
        ),
        classes_map(convert_model(raws, true))[classes_map(convert_model(raws, false))[c]] == c,
{
    let fwd = convert_model(raws, false);
    let inv = convert_model(raws, true);
    lemma_lookup_some_index(fwd, c);
    let k = choose|k: int|
        0 <= k < fwd.len() && (#[trigger] fwd[k]).0 == c && lookup_class(fwd, c) == Some(fwd[k].1);
    assert(fwd[k] == convert_class_model(raws[k], class_table_model(raws), false));
    let t = classes_map(fwd)[c];
    assert(t == raws[k].mapping.1);
    assert(inv[k] == convert_class_model(raws[k], class_table_model(raws), true));
    assert(inv[k].0 == t);
    assert forall|j: int| 0 <= j < k implies (#[trigger] inv[j]).0 != t by {
        assert(inv[j] == convert_class_model(raws[j], class_table_model(raws), true));
        assert(inv[j].0 == raws[j].mapping.1);
    }
    lemma_lookup_class_skip(inv, t, k);
    let rest = inv.subrange(k, inv.len() as int);
    assert(rest[0] == inv[k]);
    assert(lookup_class(inv, t) == Some(inv[k].1));
    assert(inv[k].1.to_name == raws[k].mapping.0);
    assert(fwd[k].0 == raws[k].mapping.0);
}

/// The uniqueness invariant of the data model: when the raw input names no
/// source class twice (in the orientation being built), the normalized table
/// keys every class at most once.
pub proof fn lemma_convert_unique(raws: Seq<RawClassV>, should_flip: bool)
    requires
        forall|i: int, j: int|
            0 <= i < j < raws.len() ==> spec_flip(should_flip, (#[trigger] raws[i]).mapping).0
                != spec_flip(should_flip, (#[trigger] raws[j]).mapping).0,
    ensures
        crate::mappings::unique_class_keys(convert_model(raws, should_flip)),
{
    let model = convert_model(raws, should_flip);
    assert forall|i: int, j: int| 0 <= i < j < model.len() implies (#[trigger] model[i]).0 != (
    #[trigger] model[j]).0 by {
        assert(model[i] == convert_class_model(raws[i], class_table_model(raws), should_flip));
        assert(model[j] == convert_class_model(raws[j], class_table_model(raws), should_flip));
    }
}
} // verus!
