//! The tiny-v2 mapping-file parser: a tab-delimited header naming the
//! namespaces, optional property lines, then class sections with method
//! entries; field entries and method subsections are recognized and skipped.
//! Internal names written with `/` are normalized to `.` on parse.
use vstd::prelude::*;

use crate::mappings::{Descriptor, DescriptorV, JBaseV, Type, TypeV};
use crate::parsing::{
    chars_of, copy_range, dots_of, fields_model, lines_model, push_line_error, spec_lit_at,
    spec_split_fields, spec_split_lines, split_fields, split_lines, string_of, ParseError,
    ParseErrors,
};

verus! {

/// The header of a tiny-v2 file: the two primary namespaces, any extra
/// namespaces, and the property lines that follow the header.
#[derive(Debug)]
pub struct TinyHeader {
    pub namespace_a: String,
    pub namespace_b: String,
    pub extra_namespaces: Vec<String>,
    pub properties: Vec<String>,
}

#[verifier::ext_equal]
pub struct TinyHeaderV {
    pub namespace_a: Seq<char>,
    pub namespace_b: Seq<char>,
    pub extra_namespaces: Seq<Seq<char>>,
    pub properties: Seq<Seq<char>>,
}

pub open spec fn strings_view(s: Seq<String>) -> Seq<Seq<char>> {
    s.map_values(|x: String| x@)
}

impl View for TinyHeader {
    type V = TinyHeaderV;

    open spec fn view(&self) -> TinyHeaderV {
        TinyHeaderV {
            namespace_a: self.namespace_a@,
            namespace_b: self.namespace_b@,
            extra_namespaces: strings_view(self.extra_namespaces@),
            properties: strings_view(self.properties@),
        }
    }
}

/// One name row: the primary name and one entry per further namespace, an
/// absent entry standing for "no mapping given".
#[derive(Debug)]
pub struct TinyMapping {
    pub primary_name: String,
    pub mapped_names: Vec<Option<String>>,
}

#[verifier::ext_equal]
pub struct TinyMappingV {
    pub primary_name: Seq<char>,
    pub mapped_names: Seq<Option<Seq<char>>>,
}

pub open spec fn opt_name_view(o: Option<String>) -> Option<Seq<char>> {
    match o {
        Some(s) => Some(s@),
        None => None,
    }
}

pub open spec fn opt_names_view(s: Seq<Option<String>>) -> Seq<Option<Seq<char>>> {
    s.map_values(|o: Option<String>| opt_name_view(o))
}

impl View for TinyMapping {
    type V = TinyMappingV;

    open spec fn view(&self) -> TinyMappingV {
        TinyMappingV {
            primary_name: self.primary_name@,
            mapped_names: opt_names_view(self.mapped_names@),
        }
    }
}

/// One method entry: its descriptor in the primary namespace and its name
/// row.
#[derive(Debug)]
pub struct TinyMethod {
    pub primary_desc: Descriptor,
    pub mapping: TinyMapping,
}

#[verifier::ext_equal]
pub struct TinyMethodV {
    pub primary_desc: DescriptorV,
    pub mapping: TinyMappingV,
}

impl View for TinyMethod {
    type V = TinyMethodV;

    open spec fn view(&self) -> TinyMethodV {
        TinyMethodV { primary_desc: self.primary_desc@, mapping: self.mapping@ }
    }
}

/// One class section: the class name row and its method entries.
#[derive(Debug)]
pub struct TinyClass {
    pub mapping: TinyMapping,
    pub methods: Vec<TinyMethod>,
}

#[verifier::ext_equal]
pub struct TinyClassV {
    pub mapping: TinyMappingV,
    pub methods: Seq<TinyMethodV>,
}

pub open spec fn tiny_methods_view(ms: Seq<TinyMethod>) -> Seq<TinyMethodV> {
    ms.map_values(|m: TinyMethod| m@)
}

impl View for TinyClass {
    type V = TinyClassV;

    open spec fn view(&self) -> TinyClassV {
        TinyClassV { mapping: self.mapping@, methods: tiny_methods_view(self.methods@) }
    }
}

/// The class sections of a file.
#[derive(Debug)]
pub struct TinyContent {
    pub classes: Vec<TinyClass>,
}

pub open spec fn tiny_classes_view(cs: Seq<TinyClass>) -> Seq<TinyClassV> {
    cs.map_values(|c: TinyClass| c@)
}

impl View for TinyContent {
    type V = Seq<TinyClassV>;

    open spec fn view(&self) -> Seq<TinyClassV> {
        tiny_classes_view(self.classes@)
    }
}

/// A parsed tiny-v2 file.
#[derive(Debug)]
pub struct TinyMappings {
    pub header: TinyHeader,
    pub content: TinyContent,
}

#[verifier::ext_equal]
pub struct TinyMappingsV {
    pub header: TinyHeaderV,
    pub classes: Seq<TinyClassV>,
}

impl View for TinyMappings {
    type V = TinyMappingsV;

    open spec fn view(&self) -> TinyMappingsV {
        TinyMappingsV { header: self.header@, classes: self.content@ }
    }
}

/// A character a tiny name may hold.
pub open spec fn spec_safe_char(c: char) -> bool {
    !(c == '\t' || c == '\n' || c == '\r' || c == '\u{0}' || c == '\\')
}

pub open spec fn safe_chars(t: Seq<char>) -> bool {
    forall|k: int| 0 <= k < t.len() ==> spec_safe_char(#[trigger] t[k])
}

/// A non-empty name token.
pub open spec fn safe_token(t: Seq<char>) -> bool {
    t.len() > 0 && safe_chars(t)
}

/// A possibly-absent name token: empty, or a valid name.
pub open spec fn opt_token_ok(t: Seq<char>) -> bool {
    t.len() == 0 || safe_chars(t)
}

/// The header line: `tiny`, the format version `2.0`, and at least two
/// namespaces, all tab-separated.
pub open spec fn spec_tiny_header(l: Seq<char>) -> Option<(Seq<char>, Seq<char>, Seq<Seq<char>>)> {
    let toks = spec_split_fields(l, '\t');
    if toks.len() >= 5 && toks[0] == "tiny"@ && toks[1] == "2"@ && toks[2] == "0"@ && safe_token(
        toks[3],
    ) && safe_token(toks[4]) && (forall|k: int| 5 <= k < toks.len() ==> safe_token(#[trigger] toks[k])) {
        Some((toks[3], toks[4], toks.subrange(5, toks.len() as int)))
    } else {
        None
    }
}

/// A property line: one tab, then one name token.
pub open spec fn spec_property_line(l: Seq<char>) -> Option<Seq<char>> {
    if l.len() >= 1 && l[0] == '\t' && safe_token(l.subrange(1, l.len() as int)) {
        Some(l.subrange(1, l.len() as int))
    } else {
        None
    }
}

/// The mapped-name cells of a class row, slashes normalized to dots.
pub open spec fn class_mapped_names(toks: Seq<Seq<char>>, nc: int) -> Seq<Option<Seq<char>>> {
    Seq::new(
        nc as nat,
        |k: int|
            if toks[2 + k].len() == 0 {
                None
            } else {
                Some(dots_of(toks[2 + k]))
            },
    )
}

/// A class line: `c`, the primary name, then exactly one cell per further
/// namespace; class names are slash-normalized.
pub open spec fn spec_class_line_t(l: Seq<char>, nc: int) -> Option<TinyMappingV> {
    let toks = spec_split_fields(l, '\t');
    if toks.len() == 2 + nc && toks[0] == "c"@ && safe_token(toks[1]) && (forall|k: int|
        2 <= k < toks.len() ==> opt_token_ok(#[trigger] toks[k])) {
        Some(TinyMappingV { primary_name: dots_of(toks[1]), mapped_names: class_mapped_names(toks, nc) })
    } else {
        None
    }
}

/// A type-name character inside an `L...;` descriptor token.
pub open spec fn spec_tn_char(c: char) -> bool {
    spec_safe_char(c) && c != ';'
}

/// The end of the run of type-name characters starting at `i`.
pub open spec fn scan_tn(t: Seq<char>, i: int) -> int
    decreases t.len() - i,
{
    if !(0 <= i < t.len()) {
        i
    } else if spec_tn_char(t[i]) {
        scan_tn(t, i + 1)
    } else {
        i
    }
}

pub proof fn lemma_scan_tn(t: Seq<char>, i: int)
    requires
        0 <= i <= t.len(),
    ensures
        i <= scan_tn(t, i) <= t.len(),
        forall|k: int| i <= k < scan_tn(t, i) ==> spec_tn_char(t[k]),
        scan_tn(t, i) < t.len() ==> !spec_tn_char(t[scan_tn(t, i)]),
    decreases t.len() - i,
{
    if i < t.len() && spec_tn_char(t[i]) {
        lemma_scan_tn(t, i + 1);
    }
}

/// One JVM descriptor type token at `i`: a primitive letter, an
/// `L<name>;` object with the name slash-normalized, or `[` prefixes; the
/// type and the position after it.
pub open spec fn spec_desc_type(t: Seq<char>, i: int) -> Option<(TypeV, int)>
    decreases t.len() - i,
    when 0 <= i
{
    if i >= t.len() {
        None
    } else if t[i] == 'V' {
        Some((TypeV { dims: 0, base: JBaseV::Void }, i + 1))
    } else if t[i] == 'Z' {
        Some((TypeV { dims: 0, base: JBaseV::Boolean }, i + 1))
    } else if t[i] == 'B' {
        Some((TypeV { dims: 0, base: JBaseV::Byte }, i + 1))
    } else if t[i] == 'S' {
        Some((TypeV { dims: 0, base: JBaseV::Short }, i + 1))
    } else if t[i] == 'C' {
        Some((TypeV { dims: 0, base: JBaseV::Char }, i + 1))
    } else if t[i] == 'I' {
        Some((TypeV { dims: 0, base: JBaseV::Int }, i + 1))
    } else if t[i] == 'J' {
        Some((TypeV { dims: 0, base: JBaseV::Long }, i + 1))
    } else if t[i] == 'F' {
        Some((TypeV { dims: 0, base: JBaseV::Float }, i + 1))
    } else if t[i] == 'D' {
        Some((TypeV { dims: 0, base: JBaseV::Double }, i + 1))
    } else if t[i] == 'L' {
        let j = scan_tn(t, i + 1);
        if j > i + 1 && j < t.len() && t[j] == ';' {
            Some((TypeV { dims: 0, base: JBaseV::Object(dots_of(t.subrange(i + 1, j))) }, j + 1))
        } else {
            None
        }
    } else if t[i] == '[' {
        match spec_desc_type(t, i + 1) {
            Some((ty, j)) => Some((TypeV { dims: ty.dims + 1, base: ty.base }, j)),
            None => None,
        }
    } else {
        None
    }
}

pub proof fn lemma_desc_type_advance(t: Seq<char>, i: int)
    requires
        0 <= i,
        spec_desc_type(t, i) is Some,
    ensures
        i < spec_desc_type(t, i)->Some_0.1 <= t.len(),
    decreases t.len() - i,
{
    if i < t.len() && t[i] == 'L' {
        lemma_scan_tn(t, i + 1);
    } else if i < t.len() && t[i] == '[' {
        if spec_desc_type(t, i + 1) is Some {
            lemma_desc_type_advance(t, i + 1);
        }
    }
}

/// The parameter types before the closing parenthesis, and the position
/// after it.
pub open spec fn spec_desc_params(t: Seq<char>, i: int) -> Option<(Seq<TypeV>, int)>
    decreases t.len() - i,
    when 0 <= i
    via spec_desc_params_decreases
{
    if i >= t.len() {
        None
    } else if t[i] == ')' {
        Some((Seq::empty(), i + 1))
    } else {
        match spec_desc_type(t, i) {
            None => None,
            Some((ty, j)) => match spec_desc_params(t, j) {
                None => None,
                Some((rest, q)) => Some((seq![ty] + rest, q)),
            },
        }
    }
}

#[via_fn]
proof fn spec_desc_params_decreases(t: Seq<char>, i: int) {
    if 0 <= i < t.len() && t[i] != ')' {
        if spec_desc_type(t, i) is Some {
            lemma_desc_type_advance(t, i);
        }
    }
}

pub proof fn lemma_desc_params_advance(t: Seq<char>, i: int)
    requires
        0 <= i,
        spec_desc_params(t, i) is Some,
    ensures
        i < spec_desc_params(t, i)->Some_0.1 <= t.len(),
    decreases t.len() - i,
{
    if i < t.len() && t[i] != ')' {
        lemma_desc_type_advance(t, i);
        let (ty, j) = spec_desc_type(t, i)->Some_0;
        lemma_desc_params_advance(t, j);
    }
}

/// A whole method descriptor: `(` the parameters `)` the return type,
/// filling the token exactly.
pub open spec fn spec_descriptor(t: Seq<char>) -> Option<DescriptorV> {
    if t.len() > 0 && t[0] == '(' {
        match spec_desc_params(t, 1) {
            None => None,
            Some((params, q)) => match spec_desc_type(t, q) {
                None => None,
                Some((ret, e)) => if e == t.len() {
                    Some(DescriptorV { params, ret })
                } else {
                    None
                },
            },
        }
    } else {
        None
    }
}

/// The mapped-name cells of a method row, kept verbatim.
pub open spec fn method_mapped_names(toks: Seq<Seq<char>>, nc: int) -> Seq<Option<Seq<char>>> {
    Seq::new(
        nc as nat,
        |k: int|
            if toks[4 + k].len() == 0 {
                None
            } else {
                Some(toks[4 + k])
            },
    )
}

/// A method line: an empty cell (the leading tab), `m`, the descriptor, the
/// primary name, then exactly one cell per further namespace.
pub open spec fn spec_method_line_t(l: Seq<char>, nc: int) -> Option<TinyMethodV> {
    let toks = spec_split_fields(l, '\t');
    if toks.len() == 4 + nc && toks[0] == Seq::<char>::empty() && toks[1] == "m"@ && safe_token(
        toks[3],
    ) && (forall|k: int| 4 <= k < toks.len() ==> opt_token_ok(#[trigger] toks[k])) {
        match spec_descriptor(toks[2]) {
            None => None,
            Some(desc) => Some(
                TinyMethodV {
                    primary_desc: desc,
                    mapping: TinyMappingV {
                        primary_name: toks[3],
                        mapped_names: method_mapped_names(toks, nc),
                    },
                },
            ),
        }
    } else {
        None
    }
}

/// A field entry, recognized only to be skipped.
pub open spec fn is_field_line_t(l: Seq<char>) -> bool {
    l.len() >= 2 && l[0] == '\t' && l[1] == 'f'
}

/// A method subsection (parameter or comment), recognized only to be
/// skipped.
pub open spec fn is_subsection_line(l: Seq<char>) -> bool {
    l.len() >= 2 && l[0] == '\t' && l[1] == '\t'
}

/// Skip the subsection lines after a method entry; each must be terminated.
pub open spec fn spec_skip_subs(lines: Seq<(Seq<char>, bool)>, j: int) -> Option<int>
    decreases lines.len() - j,
    when 0 <= j
{
    if j >= lines.len() {
        Some(j)
    } else {
        let (text, term) = lines[j];
        if is_subsection_line(text) {
            if term {
                spec_skip_subs(lines, j + 1)
            } else {
                None
            }
        } else {
            Some(j)
        }
    }
}

pub proof fn lemma_skip_subs_next(lines: Seq<(Seq<char>, bool)>, j: int)
    requires
        0 <= j <= lines.len(),
        spec_skip_subs(lines, j) is Some,
    ensures
        j <= spec_skip_subs(lines, j)->Some_0 <= lines.len(),
    decreases lines.len() - j,
{
    if j < lines.len() && is_subsection_line(lines[j].0) && lines[j].1 {
        lemma_skip_subs_next(lines, j + 1);
    }
}

/// The member lines of one class section from line `j` on: field entries are
/// skipped, method entries are kept with their subsections skipped; anything
/// else ends the section.
pub open spec fn spec_tiny_methods(lines: Seq<(Seq<char>, bool)>, j: int, nc: int) -> Option<
    (Seq<TinyMethodV>, int)>
    decreases lines.len() - j,
    when 0 <= j <= lines.len()
    via spec_tiny_methods_decreases
{
    if j >= lines.len() {
        Some((Seq::empty(), j))
    } else {
        let (text, term) = lines[j];
        if is_field_line_t(text) {
            if !term {
                None
            } else {
                spec_tiny_methods(lines, j + 1, nc)
            }
        } else if spec_lit_at(text, 0, "\tm\t"@) {
            if !term {
                None
            } else {
                match spec_method_line_t(text, nc) {
                    None => None,
                    Some(m) => match spec_skip_subs(lines, j + 1) {
                        None => None,
                        Some(j2) => match spec_tiny_methods(lines, j2, nc) {
                            None => None,
                            Some((ms, nxt)) => Some((seq![m] + ms, nxt)),
                        },
                    },
                }
            }
        } else {
            Some((Seq::empty(), j))
        }
    }
}

#[via_fn]
proof fn spec_tiny_methods_decreases(lines: Seq<(Seq<char>, bool)>, j: int, nc: int) {
    if 0 <= j < lines.len() {
        if spec_skip_subs(lines, j + 1) is Some {
            lemma_skip_subs_next(lines, j + 1);
        }
    }
}

pub proof fn lemma_tiny_methods_next(lines: Seq<(Seq<char>, bool)>, j: int, nc: int)
    requires
        0 <= j <= lines.len(),
        spec_tiny_methods(lines, j, nc) is Some,
    ensures
        j <= spec_tiny_methods(lines, j, nc)->Some_0.1 <= lines.len(),
    decreases lines.len() - j,
{
    if j < lines.len() {
        let (text, term) = lines[j];
        if is_field_line_t(text) && term {
            lemma_tiny_methods_next(lines, j + 1, nc);
        } else if spec_lit_at(text, 0, "\tm\t"@) && term {
            if spec_method_line_t(text, nc) is Some && spec_skip_subs(lines, j + 1) is Some {
                let j2 = spec_skip_subs(lines, j + 1)->Some_0;
                lemma_skip_subs_next(lines, j + 1);
                if spec_tiny_methods(lines, j2, nc) is Some {
                    lemma_tiny_methods_next(lines, j2, nc);
                }
            }
        }
    }
}

/// The class sections from line `i` on.
pub open spec fn spec_tiny_classes(lines: Seq<(Seq<char>, bool)>, i: int, nc: int) -> Option<
    Seq<TinyClassV>>
    decreases lines.len() - i,
    when 0 <= i <= lines.len()
    via spec_tiny_classes_decreases
{
    if i >= lines.len() {
        Some(Seq::empty())
    } else {
        let (text, term) = lines[i];
        if !term {
            None
        } else {
            match spec_class_line_t(text, nc) {
                None => None,
                Some(mapping) => match spec_tiny_methods(lines, i + 1, nc) {
                    None => None,
                    Some((ms, nxt)) => match spec_tiny_classes(lines, nxt, nc) {
                        None => None,
                        Some(rest) => Some(seq![TinyClassV { mapping, methods: ms }] + rest),
                    },
                },
            }
        }
    }
}

#[via_fn]
proof fn spec_tiny_classes_decreases(lines: Seq<(Seq<char>, bool)>, i: int, nc: int) {
    if 0 <= i < lines.len() {
        if spec_tiny_methods(lines, i + 1, nc) is Some {
            lemma_tiny_methods_next(lines, i + 1, nc);
        }
    }
}

/// The index of the first line after the property block.
pub open spec fn skip_props_end(lines: Seq<(Seq<char>, bool)>, i: int) -> int
    decreases lines.len() - i,
{
    if 0 <= i < lines.len() && lines[i].1 && spec_property_line(lines[i].0) is Some {
        skip_props_end(lines, i + 1)
    } else {
        i
    }
}

/// The property values of the property block.
pub open spec fn props_from(lines: Seq<(Seq<char>, bool)>, i: int) -> Seq<Seq<char>>
    decreases lines.len() - i,
{
    if 0 <= i < lines.len() && lines[i].1 && spec_property_line(lines[i].0) is Some {
        seq![spec_property_line(lines[i].0)->Some_0] + props_from(lines, i + 1)
    } else {
        Seq::empty()
    }
}

/// The whole file: a terminated header line, the property block, then class
/// sections covering every remaining line.
pub open spec fn spec_tiny_v2(s: Seq<char>) -> Option<TinyMappingsV> {
    let lines = spec_split_lines(s);
    if lines.len() == 0 {
        None
    } else if !lines[0].1 {
        None
    } else {
        match spec_tiny_header(lines[0].0) {
            None => None,
            Some((a, b, extras)) => {
                let nc = 1 + extras.len();
                let p0 = skip_props_end(lines, 1);
                match spec_tiny_classes(lines, p0, nc as int) {
                    None => None,
                    Some(classes) => Some(
                        TinyMappingsV {
                            header: TinyHeaderV {
                                namespace_a: a,
                                namespace_b: b,
                                extra_namespaces: extras,
                                properties: props_from(lines, 1),
                            },
                            classes,
                        },
                    ),
                }
            },
        }
    }
}


fn is_safe_char(c: char) -> (r: bool)
    ensures
        r == spec_safe_char(c),
{
    !(c == '\t' || c == '\n' || c == '\r' || c == '\u{0}' || c == '\\')
}

fn check_safe_chars(t: &Vec<char>) -> (r: bool)
    ensures
        r == safe_chars(t@),
{
    let mut k: usize = 0;
    while k < t.len()
        invariant
            k <= t@.len(),
            forall|j: int| 0 <= j < k ==> spec_safe_char(#[trigger] t@[j]),
        decreases t@.len() - k,
    {
        if !is_safe_char(t[k]) {
            return false;
        }
        k += 1;
    }
    true
}

fn check_safe_token(t: &Vec<char>) -> (r: bool)
    ensures
        r == safe_token(t@),
{
    t.len() > 0 && check_safe_chars(t)
}

fn field_line_start(l: &Vec<char>) -> (r: bool)
    ensures
        r == is_field_line_t(l@),
{
    l.len() >= 2 && l[0] == '\t' && l[1] == 'f'
}

fn subsection_line_start(l: &Vec<char>) -> (r: bool)
    ensures
        r == is_subsection_line(l@),
{
    l.len() >= 2 && l[0] == '\t' && l[1] == '\t'
}

fn parse_tiny_header(l: &Vec<char>) -> (r: Option<(String, String, Vec<String>)>)
    ensures
        match r {
            Some((a, b, extras)) => spec_tiny_header(l@) == Some(
                (a@, b@, strings_view(extras@)),
            ),
            None => spec_tiny_header(l@) is None,
        },
{
    let toks = split_fields(l, '\t');
    let ghost tv = fields_model(toks@);
    proof {
        assert(tv.len() == toks@.len());
    }
    if toks.len() < 5 {
        return None;
    }
    if !(crate::mappings::chars_eq_str(&toks[0], "tiny") && crate::mappings::chars_eq_str(
        &toks[1],
        "2",
    ) && crate::mappings::chars_eq_str(&toks[2], "0")) {
        proof {
            assert(tv[0] == toks@[0]@ && tv[1] == toks@[1]@ && tv[2] == toks@[2]@);
        }
        return None;
    }
    if !(check_safe_token(&toks[3]) && check_safe_token(&toks[4])) {
        proof {
            assert(tv[3] == toks@[3]@ && tv[4] == toks@[4]@);
        }
        return None;
    }
    let mut extras: Vec<String> = Vec::new();
    let mut k: usize = 5;
    while k < toks.len()
        invariant
            5 <= k <= toks@.len(),
            tv == fields_model(toks@),
            tv == spec_split_fields(l@, '\t'),
            extras@.len() == k - 5,
            forall|j: int| 5 <= j < k ==> safe_token(#[trigger] tv[j]),
            forall|j: int| 0 <= j < extras@.len() ==> extras@[j]@ == tv[5 + j],
        decreases toks@.len() - k,
    {
        proof {
            assert(tv[k as int] == toks@[k as int]@);
        }
        if !check_safe_token(&toks[k]) {
            return None;
        }
        extras.push(string_of(&toks[k]));
        k += 1;
    }
    proof {
        assert(tv[0] == toks@[0]@ && tv[1] == toks@[1]@ && tv[2] == toks@[2]@);
        assert(tv[3] == toks@[3]@ && tv[4] == toks@[4]@);
        assert(strings_view(extras@) =~= tv.subrange(5, tv.len() as int));
    }
    Some((string_of(&toks[3]), string_of(&toks[4]), extras))
}

/// Whether a terminated line is a property line, and its value.
fn parse_property_line(l: &Vec<char>) -> (r: Option<String>)
    ensures
        match r {
            Some(p) => spec_property_line(l@) == Some(p@),
            None => spec_property_line(l@) is None,
        },
{
    if l.len() >= 1 && l[0] == '\t' {
        let rest = copy_range(l, 1, l.len());
        if check_safe_token(&rest) {
            Some(string_of(&rest))
        } else {
            None
        }
    } else {
        None
    }
}

fn parse_class_line_t(l: &Vec<char>, extra_count: usize) -> (r: Option<TinyMapping>)
    ensures
        match r {
            Some(m) => spec_class_line_t(l@, 1 + extra_count as int) == Some(m@),
            None => spec_class_line_t(l@, 1 + extra_count as int) is None,
        },
{
    let ghost nc = 1 + extra_count as int;
    let toks = split_fields(l, '\t');
    let ghost tv = fields_model(toks@);
    proof {
        assert(tv.len() == toks@.len());
    }
    if !(toks.len() >= 3 && toks.len() - 3 == extra_count) {
        return None;
    }
    proof {
        assert(tv.len() == 2 + nc);
        assert(tv[0] == toks@[0]@ && tv[1] == toks@[1]@);
    }
    if !crate::mappings::chars_eq_str(&toks[0], "c") {
        return None;
    }
    if !check_safe_token(&toks[1]) {
        return None;
    }
    let mut mapped: Vec<Option<String>> = Vec::new();
    let mut k: usize = 2;
    while k < toks.len()
        invariant
            2 <= k <= toks@.len(),
            tv == fields_model(toks@),
            tv == spec_split_fields(l@, '\t'),
            tv.len() == 2 + nc,
            mapped@.len() == k - 2,
            forall|j: int| 2 <= j < k ==> opt_token_ok(#[trigger] tv[j]),
            forall|j: int|
                0 <= j < mapped@.len() ==> opt_name_view(#[trigger] mapped@[j]) == (if tv[2
                    + j].len() == 0 {
                    None
                } else {
                    Some(dots_of(tv[2 + j]))
                }),
        decreases toks@.len() - k,
    {
        proof {
            assert(tv[k as int] == toks@[k as int]@);
        }
        if toks[k].len() == 0 {
            mapped.push(None);
        } else if check_safe_chars(&toks[k]) {
            mapped.push(Some(string_of(&crate::parsing::to_dots(&toks[k]))));
        } else {
            return None;
        }
        k += 1;
    }
    let m = TinyMapping {
        primary_name: string_of(&crate::parsing::to_dots(&toks[1])),
        mapped_names: mapped,
    };
    proof {
        assert(m@.mapped_names =~= class_mapped_names(tv, nc));
        assert(m@ =~= spec_class_line_t(l@, nc)->Some_0);
    }
    Some(m)
}

fn parse_desc_type(t: &Vec<char>, i: usize) -> (r: Option<(Type, usize)>)
    requires
        i <= t@.len(),
    ensures
        match r {
            Some((ty, j)) => spec_desc_type(t@, i as int) == Some((ty@, j as int)) && i < j
                <= t@.len(),
            None => spec_desc_type(t@, i as int) is None,
        },
    decreases t@.len() - i,
{
    let n = t.len();
    if i >= n {
        return None;
    }
    let c = t[i];
    if c == 'V' {
        Some((Type::Void, i + 1))
    } else if c == 'Z' {
        Some((Type::Boolean, i + 1))
    } else if c == 'B' {
        Some((Type::Byte, i + 1))
    } else if c == 'S' {
        Some((Type::Short, i + 1))
    } else if c == 'C' {
        Some((Type::Char, i + 1))
    } else if c == 'I' {
        Some((Type::Int, i + 1))
    } else if c == 'J' {
        Some((Type::Long, i + 1))
    } else if c == 'F' {
        Some((Type::Float, i + 1))
    } else if c == 'D' {
        Some((Type::Double, i + 1))
    } else if c == 'L' {
        proof {
            lemma_scan_tn(t@, i + 1);
        }
        let mut j: usize = i + 1;
        while j < n && is_safe_char(t[j]) && t[j] != ';'
            invariant
                i + 1 <= j <= t@.len(),
                n == t@.len(),
                j <= scan_tn(t@, i + 1),
                forall|k: int| i + 1 <= k < j ==> spec_tn_char(t@[k]),
            decreases t@.len() - j,
        {
            proof {
                lemma_scan_tn(t@, i + 1);
            }
            j += 1;
        }
        proof {
            if j < scan_tn(t@, i + 1) {
                assert(spec_tn_char(t@[j as int]));
            }
        }
        if j > i + 1 && j < n && t[j] == ';' {
            let name = string_of(&crate::parsing::to_dots(&copy_range(t, i + 1, j)));
            Some((Type::Object(name), j + 1))
        } else {
            None
        }
    } else if c == '[' {
        match parse_desc_type(t, i + 1) {
            Some((ty, j)) => Some((Type::Array(Box::new(ty)), j)),
            None => None,
        }
    } else {
        None
    }
}

fn parse_desc_params(t: &Vec<char>, i: usize) -> (r: Option<(Vec<Type>, usize)>)
    requires
        i <= t@.len(),
    ensures
        match r {
            Some((ts, q)) => spec_desc_params(t@, i as int) == Some(
                (ts@.map_values(|x: Type| x@), q as int),
            ) && i < q <= t@.len(),
            None => spec_desc_params(t@, i as int) is None,
        },
    decreases t@.len() - i,
{
    let n = t.len();
    if i >= n {
        return None;
    }
    if t[i] == ')' {
        let empty: Vec<Type> = Vec::new();
        proof {
            assert(empty@.map_values(|x: Type| x@) =~= Seq::<TypeV>::empty());
        }
        return Some((empty, i + 1));
    }
    match parse_desc_type(t, i) {
        None => None,
        Some((ty, j)) => {
            let ghost tyv = ty@;
            match parse_desc_params(t, j) {
                None => None,
                Some((rest, q)) => {
                    let ghost rest_view = rest@.map_values(|x: Type| x@);
                    let mut v = rest;
                    v.insert(0, ty);
                    proof {
                        assert(v@.map_values(|x: Type| x@) =~= seq![tyv] + rest_view);
                    }
                    Some((v, q))
                },
            }
        },
    }
}

fn parse_descriptor(t: &Vec<char>) -> (r: Option<Descriptor>)
    ensures
        match r {
            Some(d) => spec_descriptor(t@) == Some(d@),
            None => spec_descriptor(t@) is None,
        },
{
    let n = t.len();
    if !(n > 0 && t[0] == '(') {
        return None;
    }
    match parse_desc_params(t, 1) {
        None => None,
        Some((params, q)) => {
            match parse_desc_type(t, q) {
                None => None,
                Some((ret, e)) => {
                    if e == n {
                        let d = Descriptor { params, return_type: ret };
                        proof {
                            assert(d@ =~= spec_descriptor(t@)->Some_0);
                        }
                        Some(d)
                    } else {
                        None
                    }
                },
            }
        },
    }
}

fn parse_method_line_t(l: &Vec<char>, extra_count: usize) -> (r: Option<TinyMethod>)
    ensures
        match r {
            Some(m) => spec_method_line_t(l@, 1 + extra_count as int) == Some(m@),
            None => spec_method_line_t(l@, 1 + extra_count as int) is None,
        },
{
    let ghost nc = 1 + extra_count as int;
    let toks = split_fields(l, '\t');
    let ghost tv = fields_model(toks@);
    proof {
        assert(tv.len() == toks@.len());
    }
    if !(toks.len() >= 5 && toks.len() - 5 == extra_count) {
        return None;
    }
    proof {
        assert(tv.len() == 4 + nc);
        assert(tv[0] == toks@[0]@ && tv[1] == toks@[1]@ && tv[2] == toks@[2]@ && tv[3]
            == toks@[3]@);
    }
    let first_empty = toks[0].len() == 0;
    proof {
        assert(tv[0] == toks@[0]@ && tv[1] == toks@[1]@);
        if toks@[0]@.len() == 0 {
            assert(tv[0] =~= Seq::<char>::empty());
        }
    }
    if !(first_empty && crate::mappings::chars_eq_str(&toks[1], "m")) {
        return None;
    }
    if !check_safe_token(&toks[3]) {
        return None;
    }
    let desc = match parse_descriptor(&toks[2]) {
        Some(d) => d,
        None => {
            return None;
        },
    };
    let mut mapped: Vec<Option<String>> = Vec::new();
    let mut k: usize = 4;
    while k < toks.len()
        invariant
            4 <= k <= toks@.len(),
            tv == fields_model(toks@),
            tv == spec_split_fields(l@, '\t'),
            tv.len() == 4 + nc,
            mapped@.len() == k - 4,
            forall|j: int| 4 <= j < k ==> opt_token_ok(#[trigger] tv[j]),
            forall|j: int|
                0 <= j < mapped@.len() ==> opt_name_view(#[trigger] mapped@[j]) == (if tv[4
                    + j].len() == 0 {
                    None
                } else {
                    Some(tv[4 + j])
                }),
        decreases toks@.len() - k,
    {
        proof {
            assert(tv[k as int] == toks@[k as int]@);
        }
        if toks[k].len() == 0 {
            mapped.push(None);
        } else if check_safe_chars(&toks[k]) {
            mapped.push(Some(string_of(&toks[k])));
        } else {
            return None;
        }
        k += 1;
    }
    let m = TinyMethod {
        primary_desc: desc,
        mapping: TinyMapping { primary_name: string_of(&toks[3]), mapped_names: mapped },
    };
    proof {
        assert(m@.mapping.mapped_names =~= method_mapped_names(tv, nc));
        assert(m@ =~= spec_method_line_t(l@, nc)->Some_0);
    }
    Some(m)
}

/// Parse a tiny-v2 file, exactly as [`spec_tiny_v2`] reads the grammar; a
/// text that does not match yields a diagnostic with the source and the span
/// of the offending line.
pub fn parse_tiny_v2(input: &str) -> (r: Result<TinyMappings, ParseErrors>)
    ensures
        match r {
            Ok(tm) => spec_tiny_v2(input@) == Some(tm@),
            Err(e) => {
                &&& spec_tiny_v2(input@) is None
                &&& e.errors@.len() > 0
                &&& e.source@ == input@
                &&& forall|k: int|
                    0 <= k < e.errors@.len() ==> (#[trigger] e.errors@[k]).start
                        <= e.errors@[k].end <= input@.len()
            },
        },
{
    proof {
        reveal_strlit("\tm\t");
    }
    let cs = chars_of(input);
    let lines = split_lines(&cs);
    let total = cs.len();
    let ghost lm = lines_model(lines@);
    let mut errs: Vec<ParseError> = Vec::new();
    if lines.len() == 0 {
        push_line_error(&mut errs, 0, 0, "empty input: expected a tiny header");
        return Err(ParseErrors { source: input.to_owned(), errors: errs });
    }
    proof {
        assert(lm[0] == (lines@[0].text@, lines@[0].terminated));
        assert(lm.len() == lines@.len());
        assert(lines@[0].start + lines@[0].text@.len() <= cs@.len());
    }
    // Without a header there is no namespace count to scan the sections
    // against, so a bad first line is the one unrecoverable error.
    if !lines[0].terminated {
        push_line_error(&mut errs, lines[0].start, lines[0].start, "missing final newline");
        return Err(ParseErrors { source: input.to_owned(), errors: errs });
    }
    let (nsa, nsb, extras) = match parse_tiny_header(&lines[0].text) {
        Some(t) => t,
        None => {
            let start_off = lines[0].start;
            let end_off = start_off + lines[0].text.len();
            push_line_error(&mut errs, start_off, end_off, "expected a tiny 2.0 header");
            return Err(ParseErrors { source: input.to_owned(), errors: errs });
        },
    };
    let ghost extras_v = strings_view(extras@);
    let ghost nc = 1 + extras_v.len() as int;
    let extra_count = extras.len();
    proof {
        assert(extras_v.len() == extras@.len());
    }
    // Property block.
    let mut props: Vec<String> = Vec::new();
    let mut i: usize = 1;
    let mut scanning = true;
    while scanning
        invariant
            1 <= i <= lines@.len(),
            lm == lines_model(lines@),
            lm.len() == lines@.len(),
            strings_view(props@) + props_from(lm, i as int) == props_from(lm, 1),
            skip_props_end(lm, 1) == skip_props_end(lm, i as int),
            !scanning ==> skip_props_end(lm, i as int) == i as int && props_from(lm, i as int)
                == Seq::<Seq<char>>::empty(),
        decreases lines@.len() - i + (if scanning {
            1int
        } else {
            0int
        }),
    {
        if i >= lines.len() {
            scanning = false;
        } else {
            proof {
                assert(lm[i as int] == (lines@[i as int].text@, lines@[i as int].terminated));
            }
            if !lines[i].terminated {
                scanning = false;
            } else {
                match parse_property_line(&lines[i].text) {
                    Some(p) => {
                        let ghost old_props = strings_view(props@);
                        let ghost pv = p@;
                        props.push(p);
                        proof {
                            assert(strings_view(props@) =~= old_props + seq![pv]);
                            assert(props_from(lm, i as int) == seq![pv] + props_from(lm, i + 1));
                            assert(old_props + (seq![pv] + props_from(lm, i + 1)) =~= (old_props
                                + seq![pv]) + props_from(lm, i + 1));
                        }
                        i += 1;
                    },
                    None => {
                        scanning = false;
                    },
                }
            }
        }
    }
    proof {
        assert(props_from(lm, 1) =~= strings_view(props@));
    }
    let ghost i0 = i as int;
    let ghost header_v = TinyHeaderV {
        namespace_a: nsa@,
        namespace_b: nsb@,
        extra_namespaces: extras_v,
        properties: strings_view(props@),
    };
    proof {
        assert(match spec_tiny_classes(lm, i0, nc) {
            None => spec_tiny_v2(input@) is None,
            Some(cls) => spec_tiny_v2(input@) == Some(
                TinyMappingsV { header: header_v, classes: cls },
            ),
        });
    }
    let mut classes: Vec<TinyClass> = Vec::new();
    while i < lines.len()
        invariant
            1 <= i <= lines@.len(),
            lm == lines_model(lines@),
            lm == spec_split_lines(input@),
            lm.len() == lines@.len(),
            cs@ == input@,
            total == cs@.len(),
            nc == 1 + extra_count as int,
            forall|qq: int| 0 <= qq < lines@.len() ==> lines@[qq].start + lines@[qq].text@.len()
                <= cs@.len(),
            forall|q: int|
                0 <= q < errs@.len() ==> (#[trigger] errs@[q]).start <= errs@[q].end <= total,
            match spec_tiny_classes(lm, i0, nc) {
                None => spec_tiny_v2(input@) is None,
                Some(cls) => spec_tiny_v2(input@) == Some(
                    TinyMappingsV { header: header_v, classes: cls },
                ),
            },
            errs@.len() == 0 ==> match spec_tiny_classes(lm, i as int, nc) {
                Some(rest) => spec_tiny_classes(lm, i0, nc) == Some(
                    tiny_classes_view(classes@) + rest,
                ),
                None => spec_tiny_classes(lm, i0, nc) is None,
            },
            errs@.len() > 0 ==> spec_tiny_classes(lm, i0, nc) is None,
        decreases lines@.len() - i,
    {
        proof {
            assert(lm[i as int] == (lines@[i as int].text@, lines@[i as int].terminated));
        }
        let class_ok: Option<TinyMapping> = if !lines[i].terminated {
            None
        } else {
            parse_class_line_t(&lines[i].text, extra_count)
        };
        match class_ok {
            None => {
                // Record the bad class line and skip the section it opens.
                proof {
                    assert(spec_tiny_classes(lm, i as int, nc) is None);
                    if errs@.len() == 0 {
                        assert(spec_tiny_classes(lm, i0, nc) is None);
                    }
                    assert(lines@[i as int].start + lines@[i as int].text@.len() <= cs@.len());
                }
                let start_off = lines[i].start;
                let end_off = start_off + lines[i].text.len();
                push_line_error(&mut errs, start_off, end_off, "expected a class section");
                i += 1;
                let ghost i_mark = i as int;
                while i < lines.len() && lines[i].text.len() > 0 && lines[i].text[0] == '\t'
                    invariant
                        i_mark <= i as int,
                        i <= lines@.len(),
                        lm == lines_model(lines@),
                        lm == spec_split_lines(input@),
                        lm.len() == lines@.len(),
                        cs@ == input@,
                        total == cs@.len(),
                        errs@.len() > 0,
                        spec_tiny_classes(lm, i0, nc) is None,
                        match spec_tiny_classes(lm, i0, nc) {
                            None => spec_tiny_v2(input@) is None,
                            Some(cls) => spec_tiny_v2(input@) == Some(
                                TinyMappingsV { header: header_v, classes: cls },
                            ),
                        },
                        forall|qq: int| 0 <= qq < lines@.len() ==> lines@[qq].start
                            + lines@[qq].text@.len() <= cs@.len(),
                        forall|q: int|
                            0 <= q < errs@.len() ==> (#[trigger] errs@[q]).start <= errs@[q].end
                                <= total,
                    decreases lines@.len() - i,
                {
                    i += 1;
                }
            },
            Some(mapping) => {
                let ghost mapping_view = mapping@;
                let mut methods: Vec<TinyMethod> = Vec::new();
                let mut j: usize = i + 1;
                while j < lines.len() && (field_line_start(&lines[j].text) || has_m_prefix(
                    &lines[j].text,
                ))
                    invariant
                        i < lines@.len(),
                        i + 1 <= j <= lines@.len(),
                        lm == lines_model(lines@),
                        lm == spec_split_lines(input@),
                        lm.len() == lines@.len(),
                        cs@ == input@,
                        total == cs@.len(),
                        nc == 1 + extra_count as int,
                        forall|qq: int| 0 <= qq < lines@.len() ==> lines@[qq].start
                            + lines@[qq].text@.len() <= cs@.len(),
                        forall|q: int|
                            0 <= q < errs@.len() ==> (#[trigger] errs@[q]).start <= errs@[q].end
                                <= total,
                        lm[i as int].1,
                        spec_class_line_t(lm[i as int].0, nc) == Some(mapping_view),
                        match spec_tiny_classes(lm, i0, nc) {
                            None => spec_tiny_v2(input@) is None,
                            Some(cls) => spec_tiny_v2(input@) == Some(
                                TinyMappingsV { header: header_v, classes: cls },
                            ),
                        },
                        errs@.len() == 0 ==> match spec_tiny_classes(lm, i as int, nc) {
                            Some(rest) => spec_tiny_classes(lm, i0, nc) == Some(
                                tiny_classes_view(classes@) + rest,
                            ),
                            None => spec_tiny_classes(lm, i0, nc) is None,
                        },
                        errs@.len() == 0 ==> match spec_tiny_methods(lm, j as int, nc) {
                            Some(pair) => spec_tiny_methods(lm, i + 1, nc) == Some(
                                (tiny_methods_view(methods@) + pair.0, pair.1),
                            ),
                            None => spec_tiny_methods(lm, i + 1, nc) is None,
                        },
                        errs@.len() > 0 ==> spec_tiny_classes(lm, i0, nc) is None,
                    decreases lines@.len() - j,
                {
                    proof {
                        assert(lm[j as int] == (
                            lines@[j as int].text@,
                            lines@[j as int].terminated,
                        ));
                    }
                    if !lines[j].terminated {
                        proof {
                            assert(spec_tiny_methods(lm, j as int, nc) is None);
                            if errs@.len() == 0 {
                                assert(spec_tiny_classes(lm, i as int, nc) is None);
                                assert(spec_tiny_classes(lm, i0, nc) is None);
                            }
                            assert(lines@[j as int].start + lines@[j as int].text@.len()
                                <= cs@.len());
                        }
                        let start_off = lines[j].start;
                        let end_off = start_off + lines[j].text.len();
                        push_line_error(&mut errs, start_off, end_off, "missing final newline");
                        j += 1;
                    } else if field_line_start(&lines[j].text) {
                        proof {
                            assert(spec_tiny_methods(lm, j as int, nc) == spec_tiny_methods(
                                lm,
                                j + 1,
                                nc,
                            ));
                        }
                        j += 1;
                    } else {
                        match parse_method_line_t(&lines[j].text, extra_count) {
                            None => {
                                proof {
                                    assert(spec_tiny_methods(lm, j as int, nc) is None);
                                    if errs@.len() == 0 {
                                        assert(spec_tiny_classes(lm, i as int, nc) is None);
                                        assert(spec_tiny_classes(lm, i0, nc) is None);
                                    }
                                    assert(lines@[j as int].start + lines@[j as int].text@.len()
                                        <= cs@.len());
                                }
                                let start_off = lines[j].start;
                                let end_off = start_off + lines[j].text.len();
                                push_line_error(
                                    &mut errs,
                                    start_off,
                                    end_off,
                                    "expected a method entry",
                                );
                                j += 1;
                            },
                            Some(m) => {
                                let ghost mv = m@;
                                let ghost jm = j as int;
                                // Skip the entry's subsection lines.
                                let mut j2: usize = j + 1;
                                while j2 < lines.len() && subsection_line_start(&lines[j2].text)
                                    invariant
                                        jm == j as int,
                                        i < lines@.len(),
                                        i + 1 <= j < lines@.len(),
                                        j + 1 <= j2 <= lines@.len(),
                                        lm == lines_model(lines@),
                                        lm == spec_split_lines(input@),
                                        lm.len() == lines@.len(),
                                        cs@ == input@,
                                        total == cs@.len(),
                                        nc == 1 + extra_count as int,
                                        forall|qq: int| 0 <= qq < lines@.len() ==> lines@[
                                            qq
                                        ].start + lines@[qq].text@.len() <= cs@.len(),
                                        forall|q: int|
                                            0 <= q < errs@.len() ==> (#[trigger] errs@[
                                                q
                                            ]).start <= errs@[q].end <= total,
                                        lm[i as int].1,
                                        spec_class_line_t(lm[i as int].0, nc) == Some(
                                            mapping_view,
                                        ),
                                        lm[jm].1,
                                        spec_lit_at(lm[jm].0, 0, "\tm\t"@),
                                        !is_field_line_t(lm[jm].0),
                                        spec_method_line_t(lm[jm].0, nc) == Some(mv),
                                        match spec_tiny_classes(lm, i0, nc) {
                                            None => spec_tiny_v2(input@) is None,
                                            Some(cls) => spec_tiny_v2(input@) == Some(
                                                TinyMappingsV {
                                                    header: header_v,
                                                    classes: cls,
                                                },
                                            ),
                                        },
                                        errs@.len() == 0 ==> match spec_tiny_classes(
                                            lm,
                                            i as int,
                                            nc,
                                        ) {
                                            Some(rest) => spec_tiny_classes(lm, i0, nc) == Some(
                                                tiny_classes_view(classes@) + rest,
                                            ),
                                            None => spec_tiny_classes(lm, i0, nc) is None,
                                        },
                                        errs@.len() == 0 ==> match spec_tiny_methods(
                                            lm,
                                            jm,
                                            nc,
                                        ) {
                                            Some(pair) => spec_tiny_methods(lm, i + 1, nc)
                                                == Some(
                                                (tiny_methods_view(methods@) + pair.0, pair.1),
                                            ),
                                            None => spec_tiny_methods(lm, i + 1, nc) is None,
                                        },
                                        errs@.len() == 0 ==> spec_skip_subs(lm, j + 1)
                                            == spec_skip_subs(lm, j2 as int),
                                        errs@.len() > 0 ==> spec_tiny_classes(lm, i0, nc) is None,
                                    decreases lines@.len() - j2,
                                {
                                    proof {
                                        assert(lm[j2 as int] == (
                                            lines@[j2 as int].text@,
                                            lines@[j2 as int].terminated,
                                        ));
                                    }
                                    if !lines[j2].terminated {
                                        proof {
                                            assert(spec_skip_subs(lm, j2 as int) is None);
                                            if errs@.len() == 0 {
                                                assert(spec_tiny_methods(lm, jm, nc) is None);
                                                assert(spec_tiny_classes(
                                                    lm,
                                                    i as int,
                                                    nc,
                                                ) is None);
                                                assert(spec_tiny_classes(lm, i0, nc) is None);
                                            }
                                            assert(lines@[j2 as int].start + lines@[
                                                j2 as int
                                            ].text@.len() <= cs@.len());
                                        }
                                        let start_off = lines[j2].start;
                                        let end_off = start_off + lines[j2].text.len();
                                        push_line_error(
                                            &mut errs,
                                            start_off,
                                            end_off,
                                            "missing final newline",
                                        );
                                    }
                                    j2 += 1;
                                }
                                proof {
                                    if errs@.len() == 0 {
                                        if j2 < lines@.len() {
                                            assert(lm[j2 as int] == (
                                                lines@[j2 as int].text@,
                                                lines@[j2 as int].terminated,
                                            ));
                                        }
                                        assert(spec_skip_subs(lm, j2 as int) == Some(
                                            j2 as int,
                                        ));
                                        assert(spec_skip_subs(lm, j + 1) == Some(j2 as int));
                                    }
                                }
                                let ghost old_methods = tiny_methods_view(methods@);
                                methods.push(m);
                                proof {
                                    if errs@.len() == 0 {
                                        assert(tiny_methods_view(methods@) =~= old_methods
                                            + seq![mv]);
                                        if spec_tiny_methods(lm, j2 as int, nc) is Some {
                                            let pair = spec_tiny_methods(
                                                lm,
                                                j2 as int,
                                                nc,
                                            )->Some_0;
                                            assert(spec_tiny_methods(lm, jm, nc) == Some(
                                                (seq![mv] + pair.0, pair.1),
                                            ));
                                            assert(old_methods + (seq![mv] + pair.0)
                                                =~= (old_methods + seq![mv]) + pair.0);
                                        }
                                    }
                                }
                                j = j2;
                            },
                        }
                    }
                }
                proof {
                    if errs@.len() == 0 {
                        if j < lines@.len() {
                            assert(lm[j as int] == (
                                lines@[j as int].text@,
                                lines@[j as int].terminated,
                            ));
                        }
                        assert(spec_tiny_methods(lm, j as int, nc) == Some(
                            (Seq::<TinyMethodV>::empty(), j as int),
                        ));
                        assert(tiny_methods_view(methods@) + Seq::<TinyMethodV>::empty()
                            =~= tiny_methods_view(methods@));
                        assert(spec_tiny_methods(lm, i + 1, nc) == Some(
                            (tiny_methods_view(methods@), j as int),
                        ));
                    }
                }
                let ghost old_classes = tiny_classes_view(classes@);
                let ghost methods_view = tiny_methods_view(methods@);
                classes.push(TinyClass { mapping, methods });
                proof {
                    if errs@.len() == 0 {
                        assert(tiny_classes_view(classes@) =~= old_classes + seq![
                            TinyClassV { mapping: mapping_view, methods: methods_view },
                        ]);
                        if spec_tiny_classes(lm, j as int, nc) is Some {
                            let rest = spec_tiny_classes(lm, j as int, nc)->Some_0;
                            assert(spec_tiny_classes(lm, i as int, nc) == Some(
                                seq![TinyClassV { mapping: mapping_view, methods: methods_view }]
                                    + rest,
                            ));
                            assert(old_classes + (seq![
                                TinyClassV { mapping: mapping_view, methods: methods_view },
                            ] + rest) =~= (old_classes + seq![
                                TinyClassV { mapping: mapping_view, methods: methods_view },
                            ]) + rest);
                        }
                    }
                }
                i = j;
            },
        }
    }
    if errs.len() > 0 {
        return Err(ParseErrors { source: input.to_owned(), errors: errs });
    }
    proof {
        assert(spec_tiny_classes(lm, lines@.len() as int, nc) == Some(
            Seq::<TinyClassV>::empty(),
        ));
        assert(tiny_classes_view(classes@) + Seq::<TinyClassV>::empty() =~= tiny_classes_view(
            classes@,
        ));
    }
    let tm = TinyMappings {
        header: TinyHeader {
            namespace_a: nsa,
            namespace_b: nsb,
            extra_namespaces: extras,
            properties: props,
        },
        content: TinyContent { classes },
    };
    proof {
        assert(tm@ =~= TinyMappingsV { header: header_v, classes: tiny_classes_view(classes@) });
    }
    Ok(tm)
}

fn has_m_prefix(l: &Vec<char>) -> (r: bool)
    ensures
        r == spec_lit_at(l@, 0, "\tm\t"@),
{
    proof {
        reveal_strlit("\tm\t");
    }
    crate::parsing::has_lit_at(l, 0, "\tm\t")
}

pub open spec fn no_slash(s: Seq<char>) -> bool {
    forall|k: int| 0 <= k < s.len() ==> s[k] != '/'
}

pub proof fn lemma_dots_no_slash(s: Seq<char>)
    ensures
        no_slash(dots_of(s)),
{
    assert forall|k: int| 0 <= k < dots_of(s).len() implies dots_of(s)[k] != '/' by {
        assert(dots_of(s)[k] == (if s[k] == '/' {
            '.'
        } else {
            s[k]
        }));
    }
}

/// No slash survives in a name row's class names.
pub open spec fn mapping_slash_free(m: TinyMappingV) -> bool {
    &&& no_slash(m.primary_name)
    &&& forall|k: int|
        0 <= k < m.mapped_names.len() ==> match #[trigger] m.mapped_names[k] {
            Some(n) => no_slash(n),
            None => true,
        }
}

proof fn lemma_class_line_slash_free(l: Seq<char>, nc: int)
    requires
        spec_class_line_t(l, nc) is Some,
    ensures
        mapping_slash_free(spec_class_line_t(l, nc)->Some_0),
{
    let m = spec_class_line_t(l, nc)->Some_0;
    let toks = spec_split_fields(l, '\t');
    lemma_dots_no_slash(toks[1]);
    assert forall|k: int| 0 <= k < m.mapped_names.len() implies match #[trigger] m.mapped_names[k] {
        Some(n) => no_slash(n),
        None => true,
    } by {
        if toks[2 + k].len() != 0 {
            lemma_dots_no_slash(toks[2 + k]);
        }
    }
}

proof fn lemma_tiny_classes_slash_free(lines: Seq<(Seq<char>, bool)>, i: int, nc: int)
    requires
        0 <= i <= lines.len(),
        spec_tiny_classes(lines, i, nc) is Some,
    ensures
        forall|k: int|
            0 <= k < spec_tiny_classes(lines, i, nc)->Some_0.len() ==> mapping_slash_free(
                (#[trigger] spec_tiny_classes(lines, i, nc)->Some_0[k]).mapping,
            ),
    decreases lines.len() - i,
{
    if i < lines.len() {
        let (text, term) = lines[i];
        let mapping = spec_class_line_t(text, nc)->Some_0;
        lemma_class_line_slash_free(text, nc);
        let (ms, nxt) = spec_tiny_methods(lines, i + 1, nc)->Some_0;
        lemma_tiny_methods_next(lines, i + 1, nc);
        lemma_tiny_classes_slash_free(lines, nxt, nc);
        let rest = spec_tiny_classes(lines, nxt, nc)->Some_0;
        let whole = spec_tiny_classes(lines, i, nc)->Some_0;
        assert(whole == seq![TinyClassV { mapping, methods: ms }] + rest);
        assert forall|k: int| 0 <= k < whole.len() implies mapping_slash_free(
            (#[trigger] whole[k]).mapping,
        ) by {
            if k > 0 {
                assert(whole[k] == rest[k - 1]);
            }
        }
    }
}

/// Tiny slash normalization: no class name parsed out of a tiny-v2 file
/// contains `/`, in the primary namespace or in any mapped cell.
pub proof fn lemma_tiny_slash_normalization(s: Seq<char>)
    requires
        spec_tiny_v2(s) is Some,
    ensures
        forall|k: int|
            0 <= k < spec_tiny_v2(s)->Some_0.classes.len() ==> mapping_slash_free(
                (#[trigger] spec_tiny_v2(s)->Some_0.classes[k]).mapping,
            ),
{
    let lines = spec_split_lines(s);
    let (a, b, extras) = spec_tiny_header(lines[0].0)->Some_0;
    let nc = 1 + extras.len();
    let p0 = skip_props_end(lines, 1);
    lemma_skip_props_bounds(lines, 1);
    lemma_tiny_classes_slash_free(lines, p0, nc as int);
}

proof fn lemma_skip_props_bounds(lines: Seq<(Seq<char>, bool)>, i: int)
    requires
        0 <= i <= lines.len(),
    ensures
        i <= skip_props_end(lines, i) <= lines.len(),
    decreases lines.len() - i,
{
    if i < lines.len() && lines[i].1 && spec_property_line(lines[i].0) is Some {
        lemma_skip_props_bounds(lines, i + 1);
    }
}

/// No slash survives in a type's object name.
pub open spec fn type_slash_free(t: TypeV) -> bool {
    match t.base {
        JBaseV::Object(n) => no_slash(n),
        _ => true,
    }
}

/// No slash survives anywhere in a method's descriptor.
pub open spec fn method_desc_slash_free(m: TinyMethodV) -> bool {
    &&& type_slash_free(m.primary_desc.ret)
    &&& forall|k: int|
        0 <= k < m.primary_desc.params.len() ==> type_slash_free(
            #[trigger] m.primary_desc.params[k],
        )
}

proof fn lemma_desc_type_slash_free(t: Seq<char>, i: int)
    requires
        0 <= i,
        spec_desc_type(t, i) is Some,
    ensures
        type_slash_free(spec_desc_type(t, i)->Some_0.0),
    decreases t.len() - i,
{
    if i < t.len() && t[i] == 'L' {
        let j = scan_tn(t, i + 1);
        lemma_dots_no_slash(t.subrange(i + 1, j));
    } else if i < t.len() && t[i] == '[' {
        lemma_desc_type_slash_free(t, i + 1);
    }
}

proof fn lemma_desc_params_slash_free(t: Seq<char>, i: int)
    requires
        0 <= i,
        spec_desc_params(t, i) is Some,
    ensures
        forall|k: int|
            0 <= k < spec_desc_params(t, i)->Some_0.0.len() ==> type_slash_free(
                #[trigger] spec_desc_params(t, i)->Some_0.0[k],
            ),
    decreases t.len() - i,
{
    if i < t.len() && t[i] != ')' {
        let (ty, j) = spec_desc_type(t, i)->Some_0;
        lemma_desc_type_slash_free(t, i);
        lemma_desc_type_advance(t, i);
        lemma_desc_params_slash_free(t, j);
        let (rest, q) = spec_desc_params(t, j)->Some_0;
        assert forall|k: int| 0 <= k < spec_desc_params(t, i)->Some_0.0.len() implies
            type_slash_free(#[trigger] spec_desc_params(t, i)->Some_0.0[k]) by {
            if k > 0 {
                assert(spec_desc_params(t, i)->Some_0.0[k] == rest[k - 1]);
            }
        }
    }
}

proof fn lemma_method_line_slash_free(l: Seq<char>, nc: int)
    requires
        spec_method_line_t(l, nc) is Some,
    ensures
        method_desc_slash_free(spec_method_line_t(l, nc)->Some_0),
{
    let toks = spec_split_fields(l, '\t');
    let desc = spec_descriptor(toks[2])->Some_0;
    let (params, q) = spec_desc_params(toks[2], 1)->Some_0;
    lemma_desc_params_slash_free(toks[2], 1);
    lemma_desc_params_advance(toks[2], 1);
    lemma_desc_type_slash_free(toks[2], q);
}

proof fn lemma_tiny_methods_slash_free(lines: Seq<(Seq<char>, bool)>, j: int, nc: int)
    requires
        0 <= j <= lines.len(),
        spec_tiny_methods(lines, j, nc) is Some,
    ensures
        forall|k: int|
            0 <= k < spec_tiny_methods(lines, j, nc)->Some_0.0.len() ==> method_desc_slash_free(
                #[trigger] spec_tiny_methods(lines, j, nc)->Some_0.0[k],
            ),
    decreases lines.len() - j,
{
    if j < lines.len() {
        let (text, term) = lines[j];
        if is_field_line_t(text) && term {
            lemma_tiny_methods_slash_free(lines, j + 1, nc);
        } else if spec_lit_at(text, 0, "\tm\t"@) && term {
            let m = spec_method_line_t(text, nc)->Some_0;
            lemma_method_line_slash_free(text, nc);
            let j2 = spec_skip_subs(lines, j + 1)->Some_0;
            lemma_skip_subs_next(lines, j + 1);
            lemma_tiny_methods_slash_free(lines, j2, nc);
            let (ms, nxt) = spec_tiny_methods(lines, j2, nc)->Some_0;
            assert forall|k: int| 0 <= k < spec_tiny_methods(lines, j, nc)->Some_0.0.len() implies
                method_desc_slash_free(
                #[trigger] spec_tiny_methods(lines, j, nc)->Some_0.0[k],
            ) by {
                if k > 0 {
                    assert(spec_tiny_methods(lines, j, nc)->Some_0.0[k] == ms[k - 1]);
                }
            }
        }
    }
}

/// No slash survives in any descriptor of a parsed class's methods.
pub open spec fn class_descs_slash_free(c: TinyClassV) -> bool {
    forall|k: int| 0 <= k < c.methods.len() ==> method_desc_slash_free(#[trigger] c.methods[k])
}

proof fn lemma_tiny_classes_descs_slash_free(lines: Seq<(Seq<char>, bool)>, i: int, nc: int)
    requires
        0 <= i <= lines.len(),
        spec_tiny_classes(lines, i, nc) is Some,
    ensures
        forall|k: int|
            0 <= k < spec_tiny_classes(lines, i, nc)->Some_0.len() ==> class_descs_slash_free(
                #[trigger] spec_tiny_classes(lines, i, nc)->Some_0[k],
            ),
    decreases lines.len() - i,
{
    if i < lines.len() {
        let (text, term) = lines[i];
        let mapping = spec_class_line_t(text, nc)->Some_0;
        let (ms, nxt) = spec_tiny_methods(lines, i + 1, nc)->Some_0;
        lemma_tiny_methods_slash_free(lines, i + 1, nc);
        lemma_tiny_methods_next(lines, i + 1, nc);
        lemma_tiny_classes_descs_slash_free(lines, nxt, nc);
        let rest = spec_tiny_classes(lines, nxt, nc)->Some_0;
        let whole = spec_tiny_classes(lines, i, nc)->Some_0;
        assert(whole == seq![TinyClassV { mapping, methods: ms }] + rest);
        assert forall|k: int| 0 <= k < whole.len() implies class_descs_slash_free(
            #[trigger] whole[k],
        ) by {
            if k > 0 {
                assert(whole[k] == rest[k - 1]);
            }
        }
    }
}

/// Tiny slash normalization carries into descriptors: no object name inside
/// any parsed method descriptor contains `/` either.
pub proof fn lemma_tiny_descriptor_slash_normalization(s: Seq<char>)
    requires
        spec_tiny_v2(s) is Some,
    ensures
        forall|k: int|
            0 <= k < spec_tiny_v2(s)->Some_0.classes.len() ==> class_descs_slash_free(
                #[trigger] spec_tiny_v2(s)->Some_0.classes[k],
            ),
{
    let lines = spec_split_lines(s);
    let (a, b, extras) = spec_tiny_header(lines[0].0)->Some_0;
    let nc = 1 + extras.len();
    let p0 = skip_props_end(lines, 1);
    lemma_skip_props_bounds(lines, 1);
    lemma_tiny_classes_descs_slash_free(lines, p0, nc as int);
}
} // verus!
