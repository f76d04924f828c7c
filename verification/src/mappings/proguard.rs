//! The proguard deobfuscation-file parser: leading `#` comments, then class
//! blocks of one `source -> target:` line followed by indented member lines;
//! method lines are kept, field lines are recognized and discarded.
use vstd::prelude::*;

use crate::mappings::raw::{RawClassV, RawMethodV};
use crate::mappings::{spec_from_source_name, Descriptor, DescriptorV, Type, TypeV};
use crate::parsing::{
    chars_of, copy_range, find_last, find_last_char, has_lit_at, jname_end, lines_model,
    parse_u32_at, push_line_error, scan_jtype, scan_jtype_end, spec_jname_end, spec_lit_at,
    spec_split_lines, spec_u32_at, split_lines, string_of, ParseError, ParseErrors,
};

verus! {

/// A (source, target) name pair as a proguard line writes it.
#[derive(Debug)]
pub struct PGMapping {
    pub primary_name: String,
    pub secondary_name: String,
}

impl View for PGMapping {
    type V = (Seq<char>, Seq<char>);

    open spec fn view(&self) -> (Seq<char>, Seq<char>) {
        (self.primary_name@, self.secondary_name@)
    }
}

/// One kept method line: the descriptor read from the source-language types
/// and the (source, target) method names.
#[derive(Debug)]
pub struct PGMethod {
    pub primary_descriptor: Descriptor,
    pub mapping: PGMapping,
}

impl View for PGMethod {
    type V = RawMethodV;

    open spec fn view(&self) -> RawMethodV {
        RawMethodV { descriptor: self.primary_descriptor@, mapping: self.mapping@ }
    }
}

/// One class block: its name pair and its kept method lines, in file order.
#[derive(Debug)]
pub struct PGClass {
    pub mapping: PGMapping,
    pub methods: Vec<PGMethod>,
}

pub open spec fn pg_methods_view(ms: Seq<PGMethod>) -> Seq<RawMethodV> {
    ms.map_values(|m: PGMethod| m@)
}

impl View for PGClass {
    type V = RawClassV;

    open spec fn view(&self) -> RawClassV {
        RawClassV { mapping: self.mapping@, methods: pg_methods_view(self.methods@) }
    }
}

/// A parsed proguard file: its class blocks, in file order.
#[derive(Debug)]
pub struct PGMappings {
    pub classes: Vec<PGClass>,
}

pub open spec fn pg_classes_view(cs: Seq<PGClass>) -> Seq<RawClassV> {
    cs.map_values(|c: PGClass| c@)
}

impl View for PGMappings {
    type V = Seq<RawClassV>;

    open spec fn view(&self) -> Seq<RawClassV> {
        pg_classes_view(self.classes@)
    }
}

/// A class line: `source -> target:` filling the whole line.
pub open spec fn spec_class_line(l: Seq<char>) -> Option<(Seq<char>, Seq<char>)> {
    let j = scan_jtype(l, 0);
    if j <= 0 {
        None
    } else if !spec_lit_at(l, j, " -> "@) {
        None
    } else {
        let k = scan_jtype(l, j + 4);
        if k <= j + 4 {
            None
        } else if k + 1 == l.len() && l[k] == ':' {
            Some((l.subrange(0, j), l.subrange(j + 4, k)))
        } else {
            None
        }
    }
}

/// A field line: four spaces, a type, a name, `->`, a name; recognized so it
/// can be discarded.
pub open spec fn spec_field_line(l: Seq<char>) -> bool {
    &&& spec_lit_at(l, 0, "    "@)
    &&& scan_jtype(l, 4) > 4
    &&& {
        let j = scan_jtype(l, 4);
        &&& j < l.len()
        &&& l[j] == ' '
        &&& spec_jname_end(l, j + 1) > j + 1
        &&& {
            let k = spec_jname_end(l, j + 1);
            &&& spec_lit_at(l, k, " -> "@)
            &&& spec_jname_end(l, k + 4) > k + 4
            &&& spec_jname_end(l, k + 4) == l.len()
        }
    }
}

/// `first:second:` at `i`, as the optional leading line-number affix writes
/// it; the position after the second colon, or `i` when the affix is absent.
pub open spec fn spec_line_affix_end(l: Seq<char>, i: int) -> int {
    match spec_u32_at(l, i) {
        Some((v1, p)) => if p < l.len() && l[p] == ':' {
            match spec_u32_at(l, p + 1) {
                Some((v2, q)) => if q < l.len() && l[q] == ':' {
                    q + 1
                } else {
                    i
                },
                None => i,
            }
        } else {
            i
        },
        None => i,
    }
}

/// The comma-separated argument types between the parentheses, each read in
/// source form; yields the types and the position after the `)`.
pub open spec fn spec_args(l: Seq<char>, p: int) -> Option<(Seq<TypeV>, int)>
    decreases l.len() - p,
    when 0 <= p
{
    let j = scan_jtype(l, p);
    if j <= p {
        None
    } else {
        let t = spec_from_source_name(l.subrange(p, j));
        if j < l.len() && l[j] == ',' {
            match spec_args(l, j + 1) {
                Some((rest, q)) => Some((seq![t] + rest, q)),
                None => None,
            }
        } else if j < l.len() && l[j] == ')' {
            Some((seq![t], j + 1))
        } else {
            None
        }
    }
}

/// A method line: four spaces, an optional `l1:l2:` affix, the return type, a
/// space, an optional `Outer.` prefix, the source method name, the argument
/// list, an optional `:l1:l2` affix, `->`, and the target name.  The affixes
/// and the prefix are dropped.
pub open spec fn spec_method_line(l: Seq<char>) -> Option<RawMethodV> {
    if !spec_lit_at(l, 0, "    "@) {
        None
    } else {
        let i = spec_line_affix_end(l, 4);
        let j = scan_jtype(l, i);
        if j <= i || !(j < l.len() && l[j] == ' ') {
            None
        } else {
            let ret = spec_from_source_name(l.subrange(i, j));
            let b = j + 1;
            let k = scan_jtype(l, b);
            let e = spec_jname_end(l, k);
            let blob = l.subrange(b, k);
            // A synthetic name follows either nothing or an `Outer.` prefix;
            // a plain name is the blob after its last dot.
            let name: Option<Seq<char>> = if e > k && k > b && blob[blob.len() - 1] != '.' {
                None
            } else if e > k {
                Some(l.subrange(k, e))
            } else if k <= b {
                None
            } else if find_last(blob, '.') + 1 == blob.len() {
                None
            } else {
                Some(blob.subrange(find_last(blob, '.') + 1, blob.len() as int))
            };
            match name {
                None => None,
                Some(name) => if !(e < l.len() && l[e] == '(') {
                    None
                } else {
                    let parsed: Option<(Seq<TypeV>, int)> = if e + 1 < l.len() && l[e + 1]
                        == ')' {
                        Some((Seq::empty(), e + 2))
                    } else {
                        spec_args(l, e + 1)
                    };
                    match parsed {
                        None => None,
                        Some((params, q)) => {
                            let r = if q < l.len() && l[q] == ':' {
                                match spec_u32_at(l, q + 1) {
                                    Some((v1, a)) => if a < l.len() && l[a] == ':' {
                                        match spec_u32_at(l, a + 1) {
                                            Some((v2, b2)) => b2,
                                            None => -1,
                                        }
                                    } else {
                                        -1
                                    },
                                    None => -1,
                                }
                            } else {
                                q
                            };
                            if r < 0 || !spec_lit_at(l, r, " -> "@) {
                                None
                            } else {
                                let m = spec_jname_end(l, r + 4);
                                if m > r + 4 && m == l.len() {
                                    Some(
                                        RawMethodV {
                                            descriptor: DescriptorV { params, ret },
                                            mapping: (name, l.subrange(r + 4, m)),
                                        },
                                    )
                                } else {
                                    None
                                }
                            }
                        },
                    }
                },
            }
        }
    }
}

/// The member lines of one class block, from line `j` on: indented lines are
/// consumed (fields discarded, methods kept) until the first unindented line;
/// the kept methods and the index of that line.
pub open spec fn spec_pg_members(lines: Seq<(Seq<char>, bool)>, j: int) -> Option<
    (Seq<RawMethodV>, int)>
    decreases lines.len() - j,
    when 0 <= j
{
    if j >= lines.len() {
        Some((Seq::empty(), j))
    } else {
        let (text, term) = lines[j];
        if !spec_lit_at(text, 0, "    "@) {
            Some((Seq::empty(), j))
        } else if !term {
            None
        } else if spec_field_line(text) {
            spec_pg_members(lines, j + 1)
        } else {
            match spec_method_line(text) {
                None => None,
                Some(m) => match spec_pg_members(lines, j + 1) {
                    None => None,
                    Some((ms, nxt)) => Some((seq![m] + ms, nxt)),
                },
            }
        }
    }
}

pub proof fn lemma_pg_members_next(lines: Seq<(Seq<char>, bool)>, j: int)
    requires
        0 <= j <= lines.len(),
        spec_pg_members(lines, j) is Some,
    ensures
        j <= spec_pg_members(lines, j)->Some_0.1 <= lines.len(),
    decreases lines.len() - j,
{
    if j < lines.len() {
        let (text, term) = lines[j];
        if spec_lit_at(text, 0, "    "@) && term {
            if spec_field_line(text) {
                assert(spec_pg_members(lines, j) == spec_pg_members(lines, j + 1));
                lemma_pg_members_next(lines, j + 1);
            } else {
                match spec_method_line(text) {
                    None => {
                        assert(spec_pg_members(lines, j) is None);
                    },
                    Some(m) => {
                        assert(spec_pg_members(lines, j + 1) is Some);
                        lemma_pg_members_next(lines, j + 1);
                        let (ms, nxt) = spec_pg_members(lines, j + 1)->Some_0;
                        assert(spec_pg_members(lines, j)->Some_0.1 == nxt);
                    },
                }
            }
        }
    }
}

/// The class blocks from line `i` on: each a class line followed by its
/// members.
pub open spec fn spec_pg_classes(lines: Seq<(Seq<char>, bool)>, i: int) -> Option<Seq<RawClassV>>
    decreases lines.len() - i,
    when 0 <= i
    via spec_pg_classes_decreases
{
    if i >= lines.len() {
        Some(Seq::empty())
    } else {
        let (text, term) = lines[i];
        if !term {
            None
        } else {
            match spec_class_line(text) {
                None => None,
                Some(mapping) => match spec_pg_members(lines, i + 1) {
                    None => None,
                    Some((ms, nxt)) => match spec_pg_classes(lines, nxt) {
                        None => None,
                        Some(rest) => Some(
                            seq![RawClassV { mapping, methods: ms }] + rest,
                        ),
                    },
                },
            }
        }
    }
}

#[via_fn]
proof fn spec_pg_classes_decreases(lines: Seq<(Seq<char>, bool)>, i: int) {
    if 0 <= i < lines.len() {
        if spec_pg_members(lines, i + 1) is Some {
            lemma_pg_members_next(lines, i + 1);
        }
    }
}

/// Whether a line is a leading comment: terminated and starting with `#`.
pub open spec fn spec_comment_line(line: (Seq<char>, bool)) -> bool {
    line.1 && line.0.len() > 0 && line.0[0] == '#'
}

/// The index of the first non-comment line.
pub open spec fn skip_comments(lines: Seq<(Seq<char>, bool)>, i: int) -> int
    decreases lines.len() - i,
{
    if 0 <= i < lines.len() && spec_comment_line(lines[i]) {
        skip_comments(lines, i + 1)
    } else {
        i
    }
}

/// The whole file: leading comments, then class blocks covering every line.
pub open spec fn spec_proguard(s: Seq<char>) -> Option<Seq<RawClassV>> {
    let lines = spec_split_lines(s);
    spec_pg_classes(lines, skip_comments(lines, 0))
}


fn parse_class_line(l: &Vec<char>) -> (r: Option<PGMapping>)
    ensures
        match r {
            Some(m) => spec_class_line(l@) == Some(m@),
            None => spec_class_line(l@) is None,
        },
{
    proof {
        reveal_strlit(" -> ");
    }
    let n = l.len();
    let j = scan_jtype_end(l, 0);
    if j == 0 {
        return None;
    }
    if !has_lit_at(l, j, " -> ") {
        return None;
    }
    proof {
        assert(" -> "@.len() == 4);
    }
    let k = scan_jtype_end(l, j + 4);
    if k <= j + 4 {
        return None;
    }
    if n > 0 && k == n - 1 && l[k] == ':' {
        Some(
            PGMapping {
                primary_name: string_of(&copy_range(l, 0, j)),
                secondary_name: string_of(&copy_range(l, j + 4, k)),
            },
        )
    } else {
        None
    }
}

fn is_field_line(l: &Vec<char>) -> (r: bool)
    ensures
        r == spec_field_line(l@),
{
    proof {
        reveal_strlit("    ");
        reveal_strlit(" -> ");
    }
    let n = l.len();
    if !has_lit_at(l, 0, "    ") {
        return false;
    }
    proof {
        assert("    "@.len() == 4);
    }
    let j = scan_jtype_end(l, 4);
    if j <= 4 {
        return false;
    }
    if !(j < n && l[j] == ' ') {
        return false;
    }
    let k = jname_end(l, j + 1);
    if k <= j + 1 {
        return false;
    }
    if !has_lit_at(l, k, " -> ") {
        return false;
    }
    proof {
        assert(" -> "@.len() == 4);
    }
    let m = jname_end(l, k + 4);
    m > k + 4 && m == n
}

fn parse_args(l: &Vec<char>, p: usize) -> (r: Option<(Vec<Type>, usize)>)
    requires
        p <= l@.len(),
    ensures
        match r {
            Some((ts, q)) => spec_args(l@, p as int) == Some(
                (ts@.map_values(|t: Type| t@), q as int),
            ) && p < q <= l@.len(),
            None => spec_args(l@, p as int) is None,
        },
    decreases l@.len() - p,
{
    let n = l.len();
    let j = scan_jtype_end(l, p);
    if j <= p {
        return None;
    }
    let t = Type::from_source_name(string_of(&copy_range(l, p, j)));
    if j < n && l[j] == ',' {
        match parse_args(l, j + 1) {
            Some((rest, q)) => {
                let ghost rest_view = rest@.map_values(|t: Type| t@);
                let mut v = rest;
                v.insert(0, t);
                proof {
                    assert(v@.map_values(|t: Type| t@) =~= seq![
                        spec_from_source_name(l@.subrange(p as int, j as int)),
                    ] + rest_view);
                }
                Some((v, q))
            },
            None => None,
        }
    } else if j < n && l[j] == ')' {
        let mut v: Vec<Type> = Vec::new();
        v.push(t);
        proof {
            assert(v@.map_values(|t: Type| t@) =~= seq![
                spec_from_source_name(l@.subrange(p as int, j as int)),
            ]);
        }
        Some((v, j + 1))
    } else {
        None
    }
}

fn parse_method_line(l: &Vec<char>) -> (r: Option<PGMethod>)
    ensures
        match r {
            Some(m) => spec_method_line(l@) == Some(m@),
            None => spec_method_line(l@) is None,
        },
{
    proof {
        reveal_strlit("    ");
        reveal_strlit(" -> ");
    }
    let n = l.len();
    if !has_lit_at(l, 0, "    ") {
        return None;
    }
    proof {
        assert("    "@.len() == 4);
    }
    let i: usize = match parse_u32_at(l, 4) {
        Some((_v1, p)) => {
            if p < n && l[p] == ':' {
                match parse_u32_at(l, p + 1) {
                    Some((_v2, q)) => if q < n && l[q] == ':' {
                        q + 1
                    } else {
                        4
                    },
                    None => 4,
                }
            } else {
                4
            }
        },
        None => 4,
    };
    proof {
        assert(i as int == spec_line_affix_end(l@, 4));
    }
    let j = scan_jtype_end(l, i);
    if j <= i {
        return None;
    }
    if !(j < n && l[j] == ' ') {
        return None;
    }
    let ret = Type::from_source_name(string_of(&copy_range(l, i, j)));
    let b = j + 1;
    let k = scan_jtype_end(l, b);
    let e = jname_end(l, k);
    let name: String = if e > k {
        if k > b && l[k - 1] != '.' {
            proof {
                let blob = l@.subrange(b as int, k as int);
                assert(blob[blob.len() - 1] == l@[k - 1]);
            }
            return None;
        }
        proof {
            if k > b {
                let blob = l@.subrange(b as int, k as int);
                assert(blob[blob.len() - 1] == l@[k - 1]);
            }
        }
        string_of(&copy_range(l, k, e))
    } else {
        if k <= b {
            return None;
        }
        let blob = copy_range(l, b, k);
        let blen = blob.len();
        match find_last_char(&blob, '.') {
            Some(d) => {
                if d + 1 == blen {
                    return None;
                }
                string_of(&copy_range(&blob, d + 1, blen))
            },
            None => {
                proof {
                    assert(blob@.subrange(0, blob@.len() as int) =~= blob@);
                }
                string_of(&blob)
            },
        }
    };
    if !(e < n && l[e] == '(') {
        return None;
    }
    let parsed: Option<(Vec<Type>, usize)> = if e + 1 < n && l[e + 1] == ')' {
        let empty_params: Vec<Type> = Vec::new();
        proof {
            assert(empty_params@.map_values(|t: Type| t@) =~= Seq::<TypeV>::empty());
        }
        Some((empty_params, e + 2))
    } else {
        parse_args(l, e + 1)
    };
    let (params, q) = match parsed {
        Some(x) => x,
        None => {
            return None;
        },
    };
    let rr: usize = if q < n && l[q] == ':' {
        match parse_u32_at(l, q + 1) {
            Some((_v1, a)) => {
                if !(a < n && l[a] == ':') {
                    return None;
                }
                match parse_u32_at(l, a + 1) {
                    Some((_v2, b2)) => b2,
                    None => {
                        return None;
                    },
                }
            },
            None => {
                return None;
            },
        }
    } else {
        q
    };
    if !has_lit_at(l, rr, " -> ") {
        return None;
    }
    proof {
        assert(" -> "@.len() == 4);
    }
    let m = jname_end(l, rr + 4);
    if !(m > rr + 4 && m == n) {
        return None;
    }
    let mapping = PGMapping {
        primary_name: name,
        secondary_name: string_of(&copy_range(l, rr + 4, m)),
    };
    let method = PGMethod { primary_descriptor: Descriptor { params, return_type: ret }, mapping };
    proof {
        assert(method@ =~= spec_method_line(l@)->Some_0);
    }
    Some(method)
}

/// Parse a proguard file, exactly as [`spec_proguard`] reads the grammar; a
/// text that does not match yields a diagnostic with the source and the span
/// of the offending line.
pub fn parse_proguard(input: &str) -> (r: Result<PGMappings, ParseErrors>)
    ensures
        match r {
            Ok(pg) => spec_proguard(input@) == Some(pg@),
            Err(e) => {
                &&& spec_proguard(input@) is None
                &&& e.errors@.len() > 0
                &&& e.source@ == input@
                &&& forall|k: int|
                    0 <= k < e.errors@.len() ==> (#[trigger] e.errors@[k]).start
                        <= e.errors@[k].end <= input@.len()
            },
        },
{
    proof {
        reveal_strlit("    ");
    }
    let cs = chars_of(input);
    let lines = split_lines(&cs);
    let total = cs.len();
    let ghost lm = lines_model(lines@);
    let mut errs: Vec<ParseError> = Vec::new();
    let mut i: usize = 0;
    while i < lines.len() && lines[i].terminated && lines[i].text.len() > 0 && lines[i].text[0]
        == '#'
        invariant
            i <= lines@.len(),
            lm == lines_model(lines@),
            skip_comments(lm, 0) == skip_comments(lm, i as int),
        decreases lines@.len() - i,
    {
        proof {
            assert(lm[i as int] == (lines@[i as int].text@, lines@[i as int].terminated));
        }
        i += 1;
    }
    proof {
        if i < lines@.len() {
            assert(lm[i as int] == (lines@[i as int].text@, lines@[i as int].terminated));
        }
        assert(lm.len() == lines@.len());
        assert(skip_comments(lm, i as int) == i as int);
    }
    let ghost start = i as int;
    let mut classes: Vec<PGClass> = Vec::new();
    while i < lines.len()
        invariant
            0 <= i <= lines@.len(),
            lm == lines_model(lines@),
            lm == spec_split_lines(input@),
            lm.len() == lines@.len(),
            cs@ == input@,
            total == cs@.len(),
            spec_proguard(input@) == spec_pg_classes(lm, start),
            forall|qq: int| 0 <= qq < lines@.len() ==> lines@[qq].start + lines@[qq].text@.len()
                <= cs@.len(),
            forall|q: int|
                0 <= q < errs@.len() ==> (#[trigger] errs@[q]).start <= errs@[q].end <= total,
            errs@.len() == 0 ==> match spec_pg_classes(lm, i as int) {
                Some(rest) => spec_pg_classes(lm, start) == Some(pg_classes_view(classes@) + rest),
                None => spec_pg_classes(lm, start) is None,
            },
            errs@.len() > 0 ==> spec_pg_classes(lm, start) is None,
        decreases lines@.len() - i,
    {
        proof {
            assert(lm[i as int] == (lines@[i as int].text@, lines@[i as int].terminated));
        }
        let class_ok: Option<PGMapping> = if !lines[i].terminated {
            None
        } else {
            parse_class_line(&lines[i].text)
        };
        match class_ok {
            None => {
                // Record the bad class line and skip the block it opens.
                proof {
                    assert(spec_pg_classes(lm, i as int) is None);
                    if errs@.len() == 0 {
                        assert(spec_pg_classes(lm, start) is None);
                    }
                    assert(lines@[i as int].start + lines@[i as int].text@.len() <= cs@.len());
                }
                let start_off = lines[i].start;
                let end_off = start_off + lines[i].text.len();
                push_line_error(&mut errs, start_off, end_off, "expected `source -> target:`");
                i += 1;
                let ghost i_mark = i as int;
                while i < lines.len() && has_lit_at(&lines[i].text, 0, "    ")
                    invariant
                        i_mark <= i as int,
                        i <= lines@.len(),
                        lm == lines_model(lines@),
                        lm == spec_split_lines(input@),
                        lm.len() == lines@.len(),
                        cs@ == input@,
                        total == cs@.len(),
                        spec_proguard(input@) == spec_pg_classes(lm, start),
                        errs@.len() > 0,
                        spec_pg_classes(lm, start) is None,
                        forall|qq: int| 0 <= qq < lines@.len() ==> lines@[qq].start
                            + lines@[qq].text@.len() <= cs@.len(),
                        forall|q: int|
                            0 <= q < errs@.len() ==> (#[trigger] errs@[q]).start <= errs@[q].end
                                <= total,
                    decreases lines@.len() - i,
                {
                    i += 1;
                }
            },
            Some(mapping) => {
                let ghost mapping_view = mapping@;
                let mut methods: Vec<PGMethod> = Vec::new();
                let mut j: usize = i + 1;
                while j < lines.len() && has_lit_at(&lines[j].text, 0, "    ")
                    invariant
                        i < lines@.len(),
                        i + 1 <= j <= lines@.len(),
                        lm == lines_model(lines@),
                        lm == spec_split_lines(input@),
                        lm.len() == lines@.len(),
                        cs@ == input@,
                        total == cs@.len(),
                        spec_proguard(input@) == spec_pg_classes(lm, start),
                        forall|qq: int| 0 <= qq < lines@.len() ==> lines@[qq].start
                            + lines@[qq].text@.len() <= cs@.len(),
                        forall|q: int|
                            0 <= q < errs@.len() ==> (#[trigger] errs@[q]).start <= errs@[q].end
                                <= total,
                        lm[i as int].1,
                        spec_class_line(lm[i as int].0) == Some(mapping_view),
                        errs@.len() == 0 ==> match spec_pg_classes(lm, i as int) {
                            Some(rest) => spec_pg_classes(lm, start) == Some(
                                pg_classes_view(classes@) + rest,
                            ),
                            None => spec_pg_classes(lm, start) is None,
                        },
                        errs@.len() == 0 ==> match spec_pg_members(lm, j as int) {
                            Some(pair) => spec_pg_members(lm, i + 1) == Some(
                                (pg_methods_view(methods@) + pair.0, pair.1),
                            ),
                            None => spec_pg_members(lm, i + 1) is None,
                        },
                        errs@.len() > 0 ==> spec_pg_classes(lm, start) is None,
                    decreases lines@.len() - j,
                {
                    proof {
                        assert(lm[j as int] == (
                            lines@[j as int].text@,
                            lines@[j as int].terminated,
                        ));
                    }
                    if !lines[j].terminated {
                        proof {
                            assert(spec_pg_members(lm, j as int) is None);
                            if errs@.len() == 0 {
                                assert(spec_pg_classes(lm, i as int) is None);
                                assert(spec_pg_classes(lm, start) is None);
                            }
                            assert(lines@[j as int].start + lines@[j as int].text@.len()
                                <= cs@.len());
                        }
                        let start_off = lines[j].start;
                        let end_off = start_off + lines[j].text.len();
                        push_line_error(&mut errs, start_off, end_off, "missing final newline");
                        j += 1;
                    } else if is_field_line(&lines[j].text) {
                        proof {
                            assert(spec_pg_members(lm, j as int) == spec_pg_members(lm, j + 1));
                        }
                        j += 1;
                    } else {
                        match parse_method_line(&lines[j].text) {
                            Some(m) => {
                                let ghost mv = m@;
                                let ghost old_methods = pg_methods_view(methods@);
                                methods.push(m);
                                proof {
                                    assert(pg_methods_view(methods@) =~= old_methods + seq![mv]);
                                    if spec_pg_members(lm, j + 1) is Some {
                                        let pair = spec_pg_members(lm, j + 1)->Some_0;
                                        assert(spec_pg_members(lm, j as int) == Some(
                                            (seq![mv] + pair.0, pair.1),
                                        ));
                                        assert(old_methods + (seq![mv] + pair.0) =~= (old_methods
                                            + seq![mv]) + pair.0);
                                    }
                                }
                                j += 1;
                            },
                            None => {
                                proof {
                                    assert(spec_pg_members(lm, j as int) is None);
                                    if errs@.len() == 0 {
                                        assert(spec_pg_classes(lm, i as int) is None);
                                        assert(spec_pg_classes(lm, start) is None);
                                    }
                                    assert(lines@[j as int].start + lines@[j as int].text@.len()
                                        <= cs@.len());
                                }
                                let start_off = lines[j].start;
                                let end_off = start_off + lines[j].text.len();
                                push_line_error(
                                    &mut errs,
                                    start_off,
                                    end_off,
                                    "expected a member line",
                                );
                                j += 1;
                            },
                        }
                    }
                }
                proof {
                    if errs@.len() == 0 {
                        if j < lines@.len() {
                            assert(lm[j as int] == (
                                lines@[j as int].text@,
                                lines@[j as int].terminated,
                            ));
                        }
                        assert(spec_pg_members(lm, j as int) == Some(
                            (Seq::<RawMethodV>::empty(), j as int),
                        ));
                        assert(pg_methods_view(methods@) + Seq::<RawMethodV>::empty()
                            =~= pg_methods_view(methods@));
                        assert(spec_pg_members(lm, i + 1) == Some(
                            (pg_methods_view(methods@), j as int),
                        ));
                    }
                }
                let ghost old_classes = pg_classes_view(classes@);
                let ghost methods_view = pg_methods_view(methods@);
                classes.push(PGClass { mapping, methods });
                proof {
                    if errs@.len() == 0 {
                        assert(pg_classes_view(classes@) =~= old_classes + seq![
                            RawClassV { mapping: mapping_view, methods: methods_view },
                        ]);
                        if spec_pg_classes(lm, j as int) is Some {
                            let rest = spec_pg_classes(lm, j as int)->Some_0;
                            assert(spec_pg_classes(lm, i as int) == Some(
                                seq![RawClassV { mapping: mapping_view, methods: methods_view }]
                                    + rest,
                            ));
                            assert(old_classes + (seq![
                                RawClassV { mapping: mapping_view, methods: methods_view },
                            ] + rest) =~= (old_classes + seq![
                                RawClassV { mapping: mapping_view, methods: methods_view },
                            ]) + rest);
                        }
                    }
                }
                i = j;
            },
        }
    }
    if errs.len() > 0 {
        return Err(ParseErrors { source: input.to_owned(), errors: errs });
    }
    proof {
        assert(spec_pg_classes(lm, lines@.len() as int) == Some(Seq::<RawClassV>::empty()));
        assert(pg_classes_view(classes@) + Seq::<RawClassV>::empty() =~= pg_classes_view(
            classes@,
        ));
    }
    let pg = PGMappings { classes };
    Ok(pg)
}

} // verus!
