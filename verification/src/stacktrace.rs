//! The stack-trace model: its text grammar, the rewriter that applies a
//! mapper to every name in a trace, and the canonical printing.
use vstd::prelude::*;

use crate::mappings::{base_source_name, spec_from_source_name, type_mapped, ClassMapper};
use crate::mappings::{MapSelfOnlyClass, MethodIdV, MethodMapper, Type, TypeV};
use crate::parsing::{
    chars_of, copy_range, dec_str, find_last, find_last_char, lines_model, parse_u32_at,
    push_dec_u32, push_line_error, push_str_chars, scan_inline_ws, scan_inline_ws_end, scan_jtype,
    scan_jtype_end, spec_split_lines, spec_u32_at, split_lines, string_of, ParseError,
    ParseErrors,
};

verus! {

/// One `at` line of a trace.
#[derive(Debug)]
pub struct Frame {
    pub module: Option<String>,
    pub class: String,
    pub method: String,
    pub file: String,
    pub line: Option<u32>,
}

#[verifier::ext_equal]
pub struct FrameV {
    pub module: Option<Seq<char>>,
    pub class: Seq<char>,
    pub method: Seq<char>,
    pub file: Seq<char>,
    pub line: Option<u32>,
}

impl View for Frame {
    type V = FrameV;

    open spec fn view(&self) -> FrameV {
        FrameV {
            module: match self.module {
                Some(m) => Some(m@),
                None => None,
            },
            class: self.class@,
            method: self.method@,
            file: self.file@,
            line: self.line,
        }
    }
}

/// A parsed trace: the exception type, its message, and the frames.
#[derive(Debug)]
pub struct Stacktrace {
    pub ty: Type,
    pub message: String,
    pub frames: Vec<Frame>,
}

#[verifier::ext_equal]
pub struct StacktraceV {
    pub ty: TypeV,
    pub message: Seq<char>,
    pub frames: Seq<FrameV>,
}

impl View for Stacktrace {
    type V = StacktraceV;

    open spec fn view(&self) -> StacktraceV {
        StacktraceV {
            ty: self.ty@,
            message: self.message@,
            frames: self.frames@.map_values(|f: Frame| f@),
        }
    }
}

pub open spec fn frames_view(fs: Seq<Frame>) -> Seq<FrameV> {
    fs.map_values(|f: Frame| f@)
}

/// Candidate method names joined with `/`, in candidate order.
pub open spec fn join_slash(names: Seq<Seq<char>>) -> Seq<char>
    decreases names.len(),
{
    if names.len() == 0 {
        Seq::empty()
    } else if names.len() == 1 {
        names[0]
    } else {
        join_slash(names.drop_last()) + seq!['/'] + names[names.len() - 1]
    }
}

pub open spec fn cand_names(cands: Seq<(Seq<char>, MethodIdV)>) -> Seq<Seq<char>> {
    cands.map_values(|p: (Seq<char>, MethodIdV)| p.1.name)
}

/// The file name after remapping: the part before the last dot is grafted as
/// a simple name onto the original class's package, that reconstructed class
/// name is looked up, and a hit contributes its simple name back with the
/// original extension; anything else leaves the file unchanged.
pub open spec fn file_mapped(
    file: Seq<char>,
    orig_class: Seq<char>,
    cm: Map<Seq<char>, Seq<char>>,
) -> Seq<char> {
    let d = find_last(file, '.');
    if d < 0 {
        file
    } else {
        let base = file.subrange(0, d);
        let ext = file.subrange(d + 1, file.len() as int);
        let cd = find_last(orig_class, '.');
        let as_class = if cd < 0 {
            base
        } else {
            orig_class.subrange(0, cd) + seq!['.'] + base
        };
        if cm.contains_key(as_class) {
            let mapped = cm[as_class];
            let sd = find_last(mapped, '.');
            let simple = if sd < 0 {
                mapped
            } else {
                mapped.subrange(sd + 1, mapped.len() as int)
            };
            simple + seq!['.'] + ext
        } else {
            file
        }
    }
}

/// One frame after the rewriter: class through the class map, method through
/// the candidate list (kept verbatim when the list is empty, else joined with
/// `/`), file reconstructed from the class mapping, module and line as they
/// were.
pub open spec fn frame_mapped(
    f: FrameV,
    cm: Map<Seq<char>, Seq<char>>,
    cands: Seq<(Seq<char>, MethodIdV)>,
) -> FrameV {
    FrameV {
        module: f.module,
        class: if cm.contains_key(f.class) {
            cm[f.class]
        } else {
            f.class
        },
        method: if cands.len() == 0 {
            f.method
        } else {
            join_slash(cand_names(cands))
        },
        file: file_mapped(f.file, f.class, cm),
        line: f.line,
    }
}

impl Frame {
    /// Rewrite this frame through a mapper; the method is looked up without a
    /// descriptor, since a printed trace has none.
    pub fn map_self<M: MethodMapper>(self, mapper: &M) -> (r: Frame)
        ensures
            r@ == frame_mapped(
                self@,
                mapper.class_model(),
                mapper.method_model(self.class@, self.method@, None),
            ),
    {
        let cands = mapper.map_method(self.class.as_str(), self.method.as_str(), None);
        let method: String = if cands.len() == 0 {
            self.method
        } else {
            let mut joined: Vec<char> = Vec::new();
            let mut i: usize = 0;
            while i < cands.len()
                invariant
                    i <= cands@.len(),
                    joined@ == join_slash(cand_names(
                        crate::mappings::pairs_view(cands@),
                    ).subrange(0, i as int)),
                decreases cands@.len() - i,
            {
                let ghost all = cand_names(crate::mappings::pairs_view(cands@));
                if i > 0 {
                    joined.push('/');
                }
                let mut name = chars_of(cands[i].1.name.as_str());
                joined.append(&mut name);
                proof {
                    assert(all[i as int] == cands@[i as int].1@.name);
                    let next = all.subrange(0, i + 1);
                    assert(next.drop_last() =~= all.subrange(0, i as int));
                    assert(next[next.len() - 1] == all[i as int]);
                    if i == 0 {
                        assert(joined@ =~= join_slash(next));
                    } else {
                        assert(joined@ =~= join_slash(next));
                    }
                }
                i += 1;
            }
            proof {
                let all = cand_names(crate::mappings::pairs_view(cands@));
                assert(all.subrange(0, all.len() as int) =~= all);
            }
            string_of(&joined)
        };
        let filev = chars_of(self.file.as_str());
        let file: String = match find_last_char(&filev, '.') {
            None => self.file,
            Some(d) => {
                let flen = filev.len();
                let base = copy_range(&filev, 0, d);
                let ext = copy_range(&filev, d + 1, flen);
                let classv = chars_of(self.class.as_str());
                let as_class: Vec<char> = match find_last_char(&classv, '.') {
                    None => base,
                    Some(cd) => {
                        let mut pkg = copy_range(&classv, 0, cd);
                        pkg.push('.');
                        let mut b = base;
                        pkg.append(&mut b);
                        proof {
                            assert(pkg@ =~= self.class@.subrange(0, cd as int) + seq!['.']
                                + self.file@.subrange(0, d as int));
                        }
                        pkg
                    },
                };
                let as_class_str = string_of(&as_class);
                match mapper.map_class(as_class_str.as_str()) {
                    None => self.file,
                    Some(mapped) => {
                        let mv = chars_of(mapped.as_str());
                        let mvlen = mv.len();
                        let mut simple = match find_last_char(&mv, '.') {
                            None => mv,
                            Some(sd) => copy_range(&mv, sd + 1, mvlen),
                        };
                        simple.push('.');
                        let mut e = ext;
                        simple.append(&mut e);
                        proof {
                            assert(simple@ =~= file_mapped(
                                self.file@,
                                self.class@,
                                mapper.class_model(),
                            ));
                        }
                        string_of(&simple)
                    },
                }
            },
        };
        let class: String = match mapper.map_class(self.class.as_str()) {
            Some(c) => c,
            None => self.class,
        };
        let r = Frame { module: self.module, class, method, file, line: self.line };
        proof {
            assert(r@ =~= frame_mapped(
                self@,
                mapper.class_model(),
                mapper.method_model(self.class@, self.method@, None),
            ));
        }
        r
    }
}

/// A whole trace after the rewriter: the exception type through the class
/// map, the message untouched, every frame rewritten.
pub open spec fn stacktrace_mapped<M: MethodMapper>(st: StacktraceV, mapper: &M) -> StacktraceV {
    StacktraceV {
        ty: type_mapped(st.ty, mapper.class_model()),
        message: st.message,
        frames: st.frames.map_values(
            |f: FrameV| frame_mapped(
                f,
                mapper.class_model(),
                mapper.method_model(f.class, f.method, None),
            ),
        ),
    }
}

impl Stacktrace {
    /// Rewrite every name in the trace through a mapper.
    pub fn map_self<M: MethodMapper>(self, mapper: &M) -> (r: Stacktrace)
        ensures
            r@ == stacktrace_mapped(self@, mapper),
    {
        let ghost orig = self@;
        let ty = self.ty.map_self(mapper);
        let mut rest = self.frames;
        let ghost rest_orig = rest@;
        let mut frames: Vec<Frame> = Vec::new();
        while rest.len() > 0
            invariant
                frames@.len() + rest@.len() == rest_orig.len(),
                forall|k: int| 0 <= k < rest@.len() ==> rest@[k] == rest_orig[frames@.len() + k],
                forall|k: int|
                    0 <= k < frames@.len() ==> frames@[k]@ == frame_mapped(
                        rest_orig[k]@,
                        mapper.class_model(),
                        mapper.method_model(rest_orig[k].class@, rest_orig[k].method@, None),
                    ),
            decreases rest@.len(),
        {
            let f = rest.remove(0);
            frames.push(f.map_self(mapper));
        }
        let r = Stacktrace { ty, message: self.message, frames };
        proof {
            assert(r@.frames =~= stacktrace_mapped(orig, mapper).frames);
            assert(r@ =~= stacktrace_mapped(orig, mapper));
        }
        r
    }
}

/// `[]` repeated once per array dimension.
pub open spec fn brackets(n: nat) -> Seq<char>
    decreases n,
{
    if n == 0 {
        Seq::empty()
    } else {
        brackets((n - 1) as nat) + "[]"@
    }
}

/// A type in source form: the base name followed by its array brackets.
pub open spec fn render_type(t: TypeV) -> Seq<char> {
    base_source_name(t.base) + brackets(t.dims)
}

/// One frame as the canonical printing writes it:
/// `[module/]class.method(file[:line])`.
pub open spec fn render_frame(f: FrameV) -> Seq<char> {
    (match f.module {
        Some(m) => m + seq!['/'],
        None => Seq::empty(),
    }) + f.class + seq!['.'] + f.method + seq!['('] + f.file + (match f.line {
        Some(l) => seq![':'] + dec_str(l as nat),
        None => Seq::empty(),
    }) + seq![')']
}

pub open spec fn render_frames(fs: Seq<FrameV>) -> Seq<char>
    decreases fs.len(),
{
    if fs.len() == 0 {
        Seq::empty()
    } else {
        render_frames(fs.drop_last()) + "\tat "@ + render_frame(fs[fs.len() - 1]) + seq!['\n']
    }
}

/// A whole trace in the canonical layout: `type: message` then one `\tat`
/// line per frame.
pub open spec fn render_stacktrace(st: StacktraceV) -> Seq<char> {
    render_type(st.ty) + ": "@ + st.message + seq!['\n'] + render_frames(st.frames)
}

/// Append a type's source form.
fn push_type(t: &Type, out: &mut Vec<char>)
    ensures
        final(out)@ == old(out)@ + render_type(t@),
    decreases t,
{
    match t {
        Type::Object(name) => {
            let mut n = chars_of(name.as_str());
            out.append(&mut n);
            proof {
                assert(final(out)@ =~= old(out)@ + render_type(t@));
            }
        },
        Type::Array(inner) => {
            push_type(inner, out);
            let mut b = chars_of("[]");
            out.append(&mut b);
            proof {
                assert(brackets(t@.dims) =~= brackets(inner@.dims) + "[]"@);
                assert(final(out)@ =~= old(out)@ + render_type(t@));
            }
        },
        other => {
            let lit = match other {
                Type::Void => "void",
                Type::Boolean => "boolean",
                Type::Byte => "byte",
                Type::Char => "char",
                Type::Short => "short",
                Type::Int => "int",
                Type::Long => "long",
                Type::Float => "float",
                Type::Double => "double",
                _ => "",
            };
            let mut l = chars_of(lit);
            out.append(&mut l);
            proof {
                assert(final(out)@ =~= old(out)@ + render_type(t@));
            }
        },
    }
}

impl Frame {
    /// This frame in the canonical layout.
    pub fn to_display_string(&self) -> (r: String)
        ensures
            r@ == render_frame(self@),
    {
        let mut out: Vec<char> = Vec::new();
        if let Some(module) = &self.module {
            push_str_chars(module.as_str(), &mut out);
            out.push('/');
        }
        push_str_chars(self.class.as_str(), &mut out);
        out.push('.');
        push_str_chars(self.method.as_str(), &mut out);
        out.push('(');
        push_str_chars(self.file.as_str(), &mut out);
        if let Some(line) = self.line {
            out.push(':');
            push_dec_u32(line, &mut out);
        }
        out.push(')');
        proof {
            assert(out@ =~= render_frame(self@));
        }
        string_of(&out)
    }
}

impl Stacktrace {
    /// The whole trace in the canonical layout, one trailing newline per
    /// line.
    pub fn to_display_string(&self) -> (r: String)
        ensures
            r@ == render_stacktrace(self@),
    {
        let mut out: Vec<char> = Vec::new();
        push_type(&self.ty, &mut out);
        push_str_chars(": ", &mut out);
        push_str_chars(self.message.as_str(), &mut out);
        out.push('\n');
        proof {
            assert(self@.frames.subrange(0, 0) =~= Seq::<FrameV>::empty());
            assert(out@ =~= render_type(self@.ty) + ": "@ + self@.message + seq!['\n']
                + render_frames(self@.frames.subrange(0, 0)));
        }
        let mut i: usize = 0;
        while i < self.frames.len()
            invariant
                i <= self.frames@.len(),
                out@ == render_type(self@.ty) + ": "@ + self@.message + seq!['\n'] + render_frames(
                    self@.frames.subrange(0, i as int),
                ),
            decreases self.frames@.len() - i,
        {
            push_str_chars("\tat ", &mut out);
            let fs = self.frames[i].to_display_string();
            push_str_chars(fs.as_str(), &mut out);
            out.push('\n');
            proof {
                let next = self@.frames.subrange(0, i + 1);
                assert(next.drop_last() =~= self@.frames.subrange(0, i as int));
                assert(next[next.len() - 1] == self@.frames[i as int]);
                assert(out@ =~= render_type(self@.ty) + ": "@ + self@.message + seq!['\n']
                    + render_frames(next));
            }
            i += 1;
        }
        proof {
            assert(self@.frames.subrange(0, self@.frames.len() as int) =~= self@.frames);
            assert(out@ =~= render_stacktrace(self@));
        }
        string_of(&out)
    }
}


/// Whitespace that may trail a trace: spaces, tabs, and stray carriage
/// returns left by line splitting.
pub open spec fn is_trail_ws(c: char) -> bool {
    c == ' ' || c == '\t' || c == '\r'
}

pub open spec fn ws_line(t: Seq<char>) -> bool {
    forall|k: int| 0 <= k < t.len() ==> is_trail_ws(t[k])
}

pub open spec fn all_ws_from(lines: Seq<(Seq<char>, bool)>, i: int) -> bool {
    forall|k: int| i <= k < lines.len() ==> ws_line(lines[k].0)
}

/// The first line of a trace: a type, a literal `: `, then the message as
/// the rest of the line.
pub open spec fn spec_header_line(l: Seq<char>) -> Option<(TypeV, Seq<char>)> {
    let j = scan_jtype(l, 0);
    if j <= 0 {
        None
    } else if j + 2 <= l.len() && l[j] == ':' && l[j + 1] == ' ' {
        Some((spec_from_source_name(l.subrange(0, j)), l.subrange(j + 2, l.len() as int)))
    } else {
        None
    }
}

/// The tail of a frame line after the file and line number: a closing
/// parenthesis, then optionally a ` ~[...]` decoration filling the rest of
/// the line.
pub open spec fn spec_frame_close(l: Seq<char>, pos: int) -> bool {
    if !(0 <= pos < l.len() && l[pos] == ')') {
        false
    } else {
        let q = pos + 1;
        if q == l.len() {
            true
        } else {
            &&& q + 3 <= l.len()
            &&& l[q] == ' '
            &&& l[q + 1] == '~'
            &&& l[q + 2] == '['
            &&& l[l.len() - 1] == ']'
            &&& q + 3 <= l.len() - 1
            &&& forall|k: int| q + 3 <= k < l.len() - 1 ==> l[k] != ']'
        }
    }
}

/// One frame line: inline whitespace, `at `, an optional `module/`, a
/// class-and-method blob split at its last dot, then `(file[:line])` and an
/// optional `~[...]` decoration.
pub open spec fn spec_frame_line(l: Seq<char>) -> Option<FrameV> {
    let a = scan_inline_ws(l, 0);
    if !(a + 3 <= l.len() && l[a] == 'a' && l[a + 1] == 't' && l[a + 2] == ' ') {
        None
    } else {
        let b = a + 3;
        let j = scan_jtype(l, b);
        if j == b {
            None
        } else {
            let has_module = j < l.len() && l[j] == '/';
            let c0 = if has_module {
                j + 1
            } else {
                b
            };
            let k = if has_module {
                scan_jtype(l, j + 1)
            } else {
                j
            };
            if k == c0 {
                None
            } else {
                let blob = l.subrange(c0, k);
                let d = find_last(blob, '.');
                if d < 0 {
                    None
                } else if !(k < l.len() && l[k] == '(') {
                    None
                } else {
                    let f1 = scan_jtype(l, k + 1);
                    if f1 == k + 1 {
                        None
                    } else {
                        let file = l.subrange(k + 1, f1);
                        if f1 < l.len() && l[f1] == ':' {
                            match spec_u32_at(l, f1 + 1) {
                                None => None,
                                Some((v, g)) => if spec_frame_close(l, g) {
                                    Some(
                                        FrameV {
                                            module: if has_module {
                                                Some(l.subrange(b, j))
                                            } else {
                                                None
                                            },
                                            class: blob.subrange(0, d),
                                            method: blob.subrange(d + 1, blob.len() as int),
                                            file: file,
                                            line: Some(v),
                                        },
                                    )
                                } else {
                                    None
                                },
                            }
                        } else {
                            if spec_frame_close(l, f1) {
                                Some(
                                    FrameV {
                                        module: if has_module {
                                            Some(l.subrange(b, j))
                                        } else {
                                            None
                                        },
                                        class: blob.subrange(0, d),
                                        method: blob.subrange(d + 1, blob.len() as int),
                                        file: file,
                                        line: None,
                                    },
                                )
                            } else {
                                None
                            }
                        }
                    }
                }
            }
        }
    }
}

/// The frame lines from line `i` on: frames until a whitespace-only line,
/// which may only be followed by more whitespace; every frame line must be
/// newline-terminated.
pub open spec fn spec_frames_from(lines: Seq<(Seq<char>, bool)>, i: int) -> Option<Seq<FrameV>>
    decreases lines.len() - i,
    when 0 <= i
{
    if i >= lines.len() {
        Some(Seq::empty())
    } else {
        let (text, term) = lines[i];
        if ws_line(text) {
            if all_ws_from(lines, i + 1) {
                Some(Seq::empty())
            } else {
                None
            }
        } else if term {
            match spec_frame_line(text) {
                None => None,
                Some(f) => match spec_frames_from(lines, i + 1) {
                    None => None,
                    Some(rest) => Some(seq![f] + rest),
                },
            }
        } else {
            None
        }
    }
}

/// A whole trace: a terminated header line, then frames.
pub open spec fn spec_stacktrace(s: Seq<char>) -> Option<StacktraceV> {
    let lines = spec_split_lines(s);
    if lines.len() == 0 {
        None
    } else if !lines[0].1 {
        None
    } else {
        match spec_header_line(lines[0].0) {
            None => None,
            Some((ty, msg)) => match spec_frames_from(lines, 1) {
                None => None,
                Some(frames) => Some(StacktraceV { ty, message: msg, frames }),
            },
        }
    }
}

fn ws_line_check(l: &Vec<char>) -> (r: bool)
    ensures
        r == ws_line(l@),
{
    let mut k: usize = 0;
    while k < l.len()
        invariant
            k <= l@.len(),
            forall|j: int| 0 <= j < k ==> is_trail_ws(l@[j]),
        decreases l@.len() - k,
    {
        let c = l[k];
        if !(c == ' ' || c == '\t' || c == '\r') {
            return false;
        }
        k += 1;
    }
    true
}

fn parse_header_line(l: &Vec<char>) -> (r: Option<(Type, String)>)
    ensures
        match r {
            Some((t, m)) => spec_header_line(l@) == Some((t@, m@)),
            None => spec_header_line(l@) is None,
        },
{
    let j = scan_jtype_end(l, 0);
    if j == 0 {
        return None;
    }
    if j < l.len() && l.len() - j >= 2 && l[j] == ':' && l[j + 1] == ' ' {
        let ty = Type::from_source_name(string_of(&copy_range(l, 0, j)));
        let msg = string_of(&copy_range(l, j + 2, l.len()));
        Some((ty, msg))
    } else {
        None
    }
}

fn parse_frame_close(l: &Vec<char>, pos: usize) -> (r: bool)
    requires
        pos <= l@.len(),
    ensures
        r == spec_frame_close(l@, pos as int),
{
    if !(pos < l.len() && l[pos] == ')') {
        return false;
    }
    let q = pos + 1;
    if q == l.len() {
        return true;
    }
    if !(l.len() - q >= 3 && l[q] == ' ' && l[q + 1] == '~' && l[q + 2] == '[') {
        return false;
    }
    if !(l[l.len() - 1] == ']' && l.len() - q >= 4) {
        return false;
    }
    let mut k: usize = q + 3;
    while k < l.len() - 1
        invariant
            q == pos + 1,
            pos < l@.len(),
            l@[pos as int] == ')',
            q + 3 <= k <= l@.len() - 1,
            l@.len() >= q + 4,
            forall|j: int| q + 3 <= j < k ==> l@[j] != ']',
        decreases l@.len() - k,
    {
        if l[k] == ']' {
            return false;
        }
        k += 1;
    }
    true
}

fn parse_frame_line(l: &Vec<char>) -> (r: Option<Frame>)
    ensures
        match r {
            Some(f) => spec_frame_line(l@) == Some(f@),
            None => spec_frame_line(l@) is None,
        },
{
    let a = scan_inline_ws_end(l, 0);
    if !(a < l.len() && l.len() - a >= 3 && l[a] == 'a' && l[a + 1] == 't' && l[a + 2] == ' ') {
        return None;
    }
    let b = a + 3;
    let j = scan_jtype_end(l, b);
    if j == b {
        return None;
    }
    let has_module = j < l.len() && l[j] == '/';
    let c0 = if has_module {
        j + 1
    } else {
        b
    };
    let k = if has_module {
        scan_jtype_end(l, j + 1)
    } else {
        j
    };
    if k == c0 {
        return None;
    }
    let blob = copy_range(l, c0, k);
    let d = match find_last_char(&blob, '.') {
        None => {
            return None;
        },
        Some(d) => d,
    };
    if !(k < l.len() && l[k] == '(') {
        return None;
    }
    let f1 = scan_jtype_end(l, k + 1);
    if f1 == k + 1 {
        return None;
    }
    let file = string_of(&copy_range(l, k + 1, f1));
    let module: Option<String> = if has_module {
        Some(string_of(&copy_range(l, b, j)))
    } else {
        None
    };
    let blen = blob.len();
    let class = string_of(&copy_range(&blob, 0, d));
    let method = string_of(&copy_range(&blob, d + 1, blen));
    if f1 < l.len() && l[f1] == ':' {
        match parse_u32_at(l, f1 + 1) {
            None => None,
            Some((v, g)) => {
                if parse_frame_close(l, g) {
                    Some(Frame { module, class, method, file, line: Some(v) })
                } else {
                    None
                }
            },
        }
    } else {
        if parse_frame_close(l, f1) {
            Some(Frame { module, class, method, file, line: None })
        } else {
            None
        }
    }
}

/// Parse a stack trace, exactly as [`spec_stacktrace`] reads the grammar; a
/// text that does not match yields a diagnostic with the source and the span
/// of the offending line.
pub fn parse_stacktrace(input: &str) -> (r: Result<Stacktrace, ParseErrors>)
    ensures
        match r {
            Ok(st) => spec_stacktrace(input@) == Some(st@),
            Err(e) => {
                &&& spec_stacktrace(input@) is None
                &&& e.errors@.len() > 0
                &&& e.source@ == input@
                &&& forall|k: int|
                    0 <= k < e.errors@.len() ==> (#[trigger] e.errors@[k]).start
                        <= e.errors@[k].end <= input@.len()
            },
        },
{
    let cs = chars_of(input);
    let lines = split_lines(&cs);
    let total = cs.len();
    let ghost lm = lines_model(lines@);
    let mut errs: Vec<ParseError> = Vec::new();
    if lines.len() == 0 {
        push_line_error(&mut errs, 0, 0, "empty input: expected a stack trace");
        return Err(ParseErrors { source: input.to_owned(), errors: errs });
    }
    proof {
        assert(lm[0] == (lines@[0].text@, lines@[0].terminated));
        assert(lm.len() == lines@.len());
        assert(lines@[0].start + lines@[0].text@.len() <= cs@.len());
    }
    let header: Option<(Type, String)> = if !lines[0].terminated {
        push_line_error(&mut errs, lines[0].start, lines[0].start, "missing final newline");
        None
    } else {
        match parse_header_line(&lines[0].text) {
            Some(pair) => Some(pair),
            None => {
                let start = lines[0].start;
                let end = start + lines[0].text.len();
                push_line_error(&mut errs, start, end, "expected `type: message`");
                None
            },
        }
    };
    let mut frames: Vec<Frame> = Vec::new();
    let mut i: usize = 1;
    while i < lines.len()
        invariant
            1 <= i <= lines@.len(),
            lm == lines_model(lines@),
            lm == spec_split_lines(input@),
            lm.len() == lines@.len(),
            cs@ == input@,
            total == cs@.len(),
            forall|q: int| 0 <= q < lines@.len() ==> lines@[q].start + lines@[q].text@.len()
                <= cs@.len(),
            forall|q: int|
                0 <= q < errs@.len() ==> (#[trigger] errs@[q]).start <= errs@[q].end <= total,
            errs@.len() == 0 ==> header is Some && (match spec_frames_from(lm, 1) {
                None => spec_stacktrace(input@) is None,
                Some(fs) => spec_stacktrace(input@) == Some(
                    StacktraceV {
                        ty: header->Some_0.0@,
                        message: header->Some_0.1@,
                        frames: fs,
                    },
                ),
            }),
            errs@.len() == 0 ==> match spec_frames_from(lm, i as int) {
                Some(rest) => spec_frames_from(lm, 1) == Some(frames_view(frames@) + rest),
                None => spec_frames_from(lm, 1) is None,
            },
            errs@.len() > 0 ==> spec_stacktrace(input@) is None,
        decreases lines@.len() - i,
    {
        proof {
            assert(lm[i as int] == (lines@[i as int].text@, lines@[i as int].terminated));
        }
        let line = &lines[i];
        if ws_line_check(&line.text) {
            if errs.len() == 0 {
                // Only whitespace may follow a blank line.
                let mut k: usize = i + 1;
                let mut found_bad = false;
                while k < lines.len() && !found_bad
                    invariant
                        i + 1 <= k <= lines@.len(),
                        i < lines@.len(),
                        lm == lines_model(lines@),
                        lm.len() == lines@.len(),
                        cs@ == input@,
                        total == cs@.len(),
                        forall|q: int| 0 <= q < lines@.len() ==> lines@[q].start
                            + lines@[q].text@.len() <= cs@.len(),
                        forall|j: int| i + 1 <= j < k ==> ws_line(lm[j].0),
                        found_bad ==> k < lm.len() && !ws_line(lm[k as int].0),
                    decreases lines@.len() - k + (if found_bad {
                        0int
                    } else {
                        1int
                    }),
                {
                    proof {
                        assert(lm[k as int] == (
                            lines@[k as int].text@,
                            lines@[k as int].terminated,
                        ));
                    }
                    if !ws_line_check(&lines[k].text) {
                        found_bad = true;
                    } else {
                        k += 1;
                    }
                }
                if found_bad {
                    proof {
                        assert(!all_ws_from(lm, i + 1));
                        assert(spec_frames_from(lm, i as int) is None);
                        assert(spec_frames_from(lm, 1) is None);
                        assert(spec_stacktrace(input@) is None);
                        assert(lines@[k as int].start + lines@[k as int].text@.len()
                            <= cs@.len());
                    }
                    let start = lines[k].start;
                    let end = start + lines[k].text.len();
                    push_line_error(&mut errs, start, end, "unexpected text after blank line");
                    i = k + 1;
                } else {
                    proof {
                        assert(all_ws_from(lm, i + 1));
                        assert(spec_frames_from(lm, i as int) == Some(Seq::<FrameV>::empty()));
                    }
                    i = lines.len();
                }
            } else {
                // After an error, blank lines are skipped.
                i += 1;
            }
        } else {
            if !line.terminated {
                proof {
                    assert(spec_frames_from(lm, i as int) is None);
                    if errs@.len() == 0 {
                        assert(spec_stacktrace(input@) is None);
                    }
                    assert(lines@[i as int].start + lines@[i as int].text@.len() <= cs@.len());
                }
                let start = line.start;
                let end = start + line.text.len();
                push_line_error(&mut errs, start, end, "missing final newline");
                i += 1;
            } else {
                match parse_frame_line(&line.text) {
                    None => {
                        proof {
                            assert(spec_frames_from(lm, i as int) is None);
                            if errs@.len() == 0 {
                                assert(spec_stacktrace(input@) is None);
                            }
                            assert(lines@[i as int].start + lines@[i as int].text@.len()
                                <= cs@.len());
                        }
                        let start = line.start;
                        let end = start + line.text.len();
                        push_line_error(&mut errs, start, end, "expected an `at` frame");
                        i += 1;
                    },
                    Some(f) => {
                        if errs.len() == 0 {
                            let ghost fv = f@;
                            let ghost old_frames = frames_view(frames@);
                            frames.push(f);
                            proof {
                                assert(frames_view(frames@) =~= old_frames + seq![fv]);
                                if spec_frames_from(lm, i + 1) is Some {
                                    let rest = spec_frames_from(lm, i + 1)->Some_0;
                                    assert(spec_frames_from(lm, i as int) == Some(
                                        seq![fv] + rest,
                                    ));
                                    assert(old_frames + (seq![fv] + rest) =~= (old_frames + seq![
                                        fv,
                                    ]) + rest);
                                }
                            }
                        }
                        i += 1;
                    },
                }
            }
        }
    }
    if errs.len() > 0 {
        return Err(ParseErrors { source: input.to_owned(), errors: errs });
    }
    proof {
        assert(spec_frames_from(lm, lines@.len() as int) == Some(Seq::<FrameV>::empty()));
        assert(frames_view(frames@) + Seq::<FrameV>::empty() =~= frames_view(frames@));
    }
    match header {
        Some((ty, message)) => {
            let st = Stacktrace { ty, message, frames };
            proof {
                assert(st@ =~= StacktraceV {
                    ty: st.ty@,
                    message: st.message@,
                    frames: frames_view(frames@),
                });
            }
            Ok(st)
        },
        None => {
            proof {
                assert(false);
            }
            Err(ParseErrors { source: input.to_owned(), errors: errs })
        },
    }
}

/// Multi-result formatting: with two or more candidates the rewritten method
/// field is exactly the candidate names joined by `/`, in candidate order.
pub proof fn lemma_multi_result_formatting(
    f: FrameV,
    cm: Map<Seq<char>, Seq<char>>,
    cands: Seq<(Seq<char>, MethodIdV)>,
)
    requires
        cands.len() >= 2,
    ensures
        frame_mapped(f, cm, cands).method == join_slash(cand_names(cands)),
{
}

proof fn lemma_scan_jtype_stable(l: Seq<char>, d: Seq<char>, i: int)
    requires
        0 <= i <= l.len(),
        scan_jtype(l, i) < l.len(),
    ensures
        scan_jtype(l + d, i) == scan_jtype(l, i),
    decreases l.len() - i,
{
    assert((l + d)[i] == l[i]);
    if i < l.len() && crate::parsing::spec_jtype_char(l[i]) {
        crate::parsing::lemma_scan_jtype(l, i);
        lemma_scan_jtype_stable(l, d, i + 1);
    }
}

proof fn lemma_scan_inline_ws_stable(l: Seq<char>, d: Seq<char>, i: int)
    requires
        0 <= i <= l.len(),
        scan_inline_ws(l, i) < l.len(),
    ensures
        scan_inline_ws(l + d, i) == scan_inline_ws(l, i),
    decreases l.len() - i,
{
    assert((l + d)[i] == l[i]);
    if i < l.len() && crate::parsing::spec_inline_ws(l[i]) {
        crate::parsing::lemma_scan_inline_ws(l, i);
        lemma_scan_inline_ws_stable(l, d, i + 1);
    }
}

proof fn lemma_scan_digits_stable(l: Seq<char>, d: Seq<char>, i: int)
    requires
        0 <= i <= l.len(),
        crate::parsing::scan_digits(l, i) < l.len(),
    ensures
        crate::parsing::scan_digits(l + d, i) == crate::parsing::scan_digits(l, i),
    decreases l.len() - i,
{
    assert((l + d)[i] == l[i]);
    if i < l.len() && crate::parsing::spec_java_digit(l[i]) {
        crate::parsing::lemma_scan_digits(l, i);
        lemma_scan_digits_stable(l, d, i + 1);
    }
}

proof fn lemma_u32_at_stable(l: Seq<char>, d: Seq<char>, i: int)
    requires
        0 <= i <= l.len(),
        crate::parsing::scan_digits(l, i) < l.len(),
    ensures
        spec_u32_at(l + d, i) == spec_u32_at(l, i),
{
    lemma_scan_digits_stable(l, d, i);
    let j = crate::parsing::scan_digits(l, i);
    crate::parsing::lemma_scan_digits(l, i);
    assert((l + d).subrange(i, j) =~= l.subrange(i, j));
}

/// Decoration invariance: appending a ` ~[...]` classloader hint to a frame
/// line that ends right after its closing parenthesis does not change what
/// the line parses to.
pub proof fn lemma_decoration_invariance(l: Seq<char>, inner: Seq<char>)
    requires
        spec_frame_line(l) is Some,
        l.len() > 0,
        l[l.len() - 1] == ')',
        forall|k: int| 0 <= k < inner.len() ==> inner[k] != ']',
    ensures
        spec_frame_line(l + seq![' ', '~', '['] + inner + seq![']']) == spec_frame_line(l),
{
    let d = seq![' ', '~', '['] + inner + seq![']'];
    let l2 = l + seq![' ', '~', '['] + inner + seq![']'];
    assert(l2 =~= l + d);
    let a = scan_inline_ws(l, 0);
    crate::parsing::lemma_scan_inline_ws(l, 0);
    assert(a + 3 <= l.len() && l[a] == 'a' && l[a + 1] == 't' && l[a + 2] == ' ');
    lemma_scan_inline_ws_stable(l, d, 0);
    assert((l + d)[a] == l[a] && (l + d)[a + 1] == l[a + 1] && (l + d)[a + 2] == l[a + 2]);
    let b = a + 3;
    let j = scan_jtype(l, b);
    crate::parsing::lemma_scan_jtype(l, b);
    assert(j > b);
    let has_module = j < l.len() && l[j] == '/';
    let c0 = if has_module {
        j + 1
    } else {
        b
    };
    let k = if has_module {
        scan_jtype(l, j + 1)
    } else {
        j
    };
    crate::parsing::lemma_scan_jtype(l, c0);
    if k == c0 {
        assert(spec_frame_line(l) is None);
    }
    assert(k > c0);
    // The blob is followed by `(`, so both scans stop before the end.
    assert(k < l.len() && l[k] == '(');
    lemma_scan_jtype_stable(l, d, b);
    if has_module {
        assert((l + d)[j] == l[j]);
        lemma_scan_jtype_stable(l, d, j + 1);
    }
    assert((l + d)[k] == l[k]);
    assert((l + d).subrange(c0, k) =~= l.subrange(c0, k));
    let f1 = scan_jtype(l, k + 1);
    crate::parsing::lemma_scan_jtype(l, k + 1);
    assert(f1 > k + 1);
    // The file is followed by `:` or by the closing parenthesis.
    assert(f1 < l.len());
    lemma_scan_jtype_stable(l, d, k + 1);
    assert((l + d).subrange(k + 1, f1) =~= l.subrange(k + 1, f1));
    if f1 < l.len() && l[f1] == ':' {
        assert((l + d)[f1] == l[f1]);
        let parsed = spec_u32_at(l, f1 + 1);
        assert(parsed is Some);
        let (v, g) = parsed->Some_0;
        assert(crate::parsing::scan_digits(l, f1 + 1) == g);
        assert(spec_frame_close(l, g));
        assert(g < l.len() && l[g] == ')');
        lemma_u32_at_stable(l, d, f1 + 1);
        assert((l + d)[g] == l[g]);
        lemma_close_stable(l, inner, g);
    } else {
        assert(spec_frame_close(l, f1));
        assert(l[f1] == ')');
        assert((l + d)[f1] == l[f1]);
        lemma_close_stable(l, inner, f1);
    }
}

/// A close at the very end of the line stays a close when the decoration is
/// appended.
proof fn lemma_close_stable(l: Seq<char>, inner: Seq<char>, pos: int)
    requires
        0 <= pos < l.len(),
        l[pos] == ')',
        spec_frame_close(l, pos),
        l[l.len() - 1] == ')',
        forall|k: int| 0 <= k < inner.len() ==> inner[k] != ']',
    ensures
        spec_frame_close(l + seq![' ', '~', '['] + inner + seq![']'], pos),
{
    let d = seq![' ', '~', '['] + inner + seq![']'];
    let l2 = l + seq![' ', '~', '['] + inner + seq![']'];
    assert(l2 =~= l + d);
    // The close cannot itself carry a decoration, since the line's last
    // character is the parenthesis, not `]`; so it ends the line.
    assert(pos + 1 == l.len()) by {
        if pos + 1 < l.len() {
            assert(l[l.len() - 1] == ']');
        }
    }
    let q = pos + 1;
    assert(l2[pos] == l[pos]);
    assert(l2[q] == ' ' && l2[q + 1] == '~' && l2[q + 2] == '[');
    assert(l2[l2.len() - 1] == ']');
    assert(l2.len() - 1 == q + 3 + inner.len());
    assert(forall|k: int| q + 3 <= k < l2.len() - 1 ==> l2[k] == inner[k - q - 3]);
}

/// Text made only of the characters the frame scanner accepts.
pub open spec fn jtype_text(s: Seq<char>) -> bool {
    forall|k: int| 0 <= k < s.len() ==> crate::parsing::spec_jtype_char(#[trigger] s[k])
}

/// Print-parse round trip at the frame level: a frame whose names are plain
/// scanner text, and whose method holds no dot (the printed form is re-split
/// at the last dot), parses back from its own printed `at` line.
#[verifier::rlimit(60)]
pub proof fn lemma_frame_print_parse(f: FrameV)
    requires
        frame_round_trip_ok(f),
    ensures
        spec_frame_line(seq!['\t', 'a', 't', ' '] + render_frame(f)) == Some(f),
{
    let l = seq!['\t', 'a', 't', ' '] + render_frame(f);
    let blob = f.class + seq!['.'] + f.method;
    let pre: int = match f.module {
        Some(m) => m.len() + 1int,
        None => 0,
    };
    let b = 4int;
    let c0 = b + pre;
    let k = c0 + blob.len();
    let f0 = k + 1;
    let f1 = f0 + f.file.len();
    let mpart: Seq<char> = match f.module {
        Some(m) => m + seq!['/'],
        None => Seq::<char>::empty(),
    };
    let lpart: Seq<char> = match f.line {
        Some(n) => seq![':'] + dec_str(n as nat),
        None => Seq::<char>::empty(),
    };
    assert(render_frame(f) == mpart + f.class + seq!['.'] + f.method + seq!['('] + f.file + lpart
        + seq![')']);
    assert(mpart.len() == pre) by {
        match f.module {
            Some(m) => {
                assert(mpart == m + seq!['/']);
            },
            None => {},
        }
    }
    assert(l == seq!['\t', 'a', 't', ' '] + (mpart + f.class + seq!['.'] + f.method + seq!['(']
        + f.file + lpart + seq![')']));
    assert(l.len() == f1 + lpart.len() + 1);
    // The leading whitespace run is the single tab.
    assert(l[0] == '\t' && l[1] == 'a' && l[2] == 't' && l[3] == ' ');
    assert(crate::parsing::spec_inline_ws(l[0]));
    assert(!crate::parsing::spec_inline_ws('a'));
    crate::parsing::lemma_scan_inline_ws_eq(l, 0, 1);
    assert(scan_inline_ws(l, 0) == 1);
    // The module blob, when present, runs to its slash; the class-and-method
    // blob runs to the opening parenthesis.
    assert(l[k] == '(');
    assert(forall|t: int| c0 <= t < k ==> l[t] == blob[t - c0]);
    assert(forall|t: int|
        0 <= t < blob.len() ==> crate::parsing::spec_jtype_char(#[trigger] blob[t]));
    match f.module {
        Some(m) => {
            assert(forall|t: int| b <= t < b + m.len() ==> l[t] == m[t - b]);
            assert(l[b + m.len()] == '/');
            assert(!crate::parsing::spec_jtype_char('/'));
            crate::parsing::lemma_scan_jtype_eq(l, b, b + m.len());
            assert(scan_jtype(l, b) == b + m.len());
            crate::parsing::lemma_scan_jtype_eq(l, c0, k);
            assert(l.subrange(b, b + m.len()) =~= m);
        },
        None => {
            assert(c0 == b);
            assert(!crate::parsing::spec_jtype_char('('));
            crate::parsing::lemma_scan_jtype_eq(l, b, k);
        },
    }
    // The blob re-splits at the printed dot.
    assert(l.subrange(c0, k) =~= blob);
    assert(blob[f.class.len() as int] == '.');
    assert(forall|t: int| f.class.len() < t < blob.len() ==> blob[t] == f.method[t - f.class.len()
        - 1]);
    crate::parsing::lemma_find_last_eq(blob, '.', f.class.len() as int);
    assert(blob.subrange(0, f.class.len() as int) =~= f.class);
    assert(blob.subrange(f.class.len() + 1int, blob.len() as int) =~= f.method);
    // The file runs to the colon or the closing parenthesis.
    assert(forall|t: int| f0 <= t < f1 ==> l[t] == f.file[t - f0]);
    match f.line {
        Some(n) => {
            assert(lpart[0] == ':');
            assert(l[f1] == ':');
        },
        None => {
            assert(l[f1] == ')');
        },
    }
    assert(!crate::parsing::spec_jtype_char(':') && !crate::parsing::spec_jtype_char(')'));
    crate::parsing::lemma_scan_jtype_eq(l, f0, f1);
    assert(l.subrange(f0, f1) =~= f.file);
    match f.line {
        Some(n) => {
            assert(l[f1] == ':');
            let ds = dec_str(n as nat);
            crate::parsing::lemma_dec_str_digits(n as nat);
            assert(forall|t: int| f1 + 1 <= t < f1 + 1 + ds.len() ==> l[t] == ds[t - f1 - 1]);
            let g = f1 + 1 + ds.len();
            assert(l[g] == ')');
            assert(!crate::parsing::spec_java_digit(')'));
            crate::parsing::lemma_scan_digits_eq(l, f1 + 1, g);
            assert(l.subrange(f1 + 1, g) =~= ds);
            crate::parsing::lemma_dec_val_of_dec_str(n as nat);
            assert(crate::parsing::dec_val(l.subrange(f1 + 1, g)) == n);
            assert(spec_u32_at(l, f1 + 1) == Some((n, g)));
            assert(g + 1 == l.len());
            assert(spec_frame_close(l, g));
        },
        None => {
            assert(l[f1] == ')');
            assert(f1 + 1 == l.len());
            assert(spec_frame_close(l, f1));
        },
    }
    assert(spec_frame_line(l)->Some_0 =~= f);
}

/// An object name that survives the print-parse round trip: scanner text
/// without array brackets, and not a primitive keyword.
pub open spec fn object_name_ok(n: Seq<char>) -> bool {
    &&& n.len() > 0
    &&& jtype_text(n)
    &&& forall|k: int| 0 <= k < n.len() ==> (#[trigger] n[k]) != '[' && n[k] != ']'
    &&& n != "void"@
    &&& n != "boolean"@
    &&& n != "byte"@
    &&& n != "char"@
    &&& n != "short"@
    &&& n != "int"@
    &&& n != "long"@
    &&& n != "float"@
    &&& n != "double"@
}

proof fn lemma_brackets_chars(d: nat)
    ensures
        brackets(d).len() == 2 * d,
        forall|k: int|
            0 <= k < brackets(d).len() ==> ((#[trigger] brackets(d)[k]) == '[' || brackets(d)[k]
                == ']'),
        d > 0 ==> brackets(d)[brackets(d).len() - 1] == ']',
        d > 0 ==> brackets(d)[brackets(d).len() - 2] == '[',
    decreases d,
{
    reveal_strlit("[]");
    if d > 0 {
        lemma_brackets_chars((d - 1) as nat);
        assert forall|k: int| 0 <= k < brackets(d).len() implies ((#[trigger] brackets(d)[k])
            == '[' || brackets(d)[k] == ']') by {
            if k >= 2 * (d - 1) {
                assert(brackets(d)[k] == "[]"@[k - 2 * (d - 1)]);
            } else {
                assert(brackets(d)[k] == brackets((d - 1) as nat)[k]);
            }
        }
        assert(brackets(d)[brackets(d).len() - 1] == "[]"@[1]);
        assert(brackets(d)[brackets(d).len() - 2] == "[]"@[0]);
    }
}

/// Print-parse round trip for types: an object type over a valid name, under
/// any number of array dimensions, reads back from its source form.
pub proof fn lemma_type_print_parse(t: TypeV)
    requires
        t.base is Object,
        object_name_ok(t.base->Object_0),
    ensures
        spec_from_source_name(render_type(t)) == t,
    decreases t.dims,
{
    reveal_strlit("void");
    reveal_strlit("boolean");
    reveal_strlit("byte");
    reveal_strlit("char");
    reveal_strlit("short");
    reveal_strlit("int");
    reveal_strlit("long");
    reveal_strlit("float");
    reveal_strlit("double");
    reveal_strlit("[]");
    let n = t.base->Object_0;
    let s = render_type(t);
    lemma_brackets_chars(t.dims);
    if t.dims == 0 {
        assert(s =~= n);
        assert(spec_from_source_name(n) =~= t) by {
            if n.len() >= 2 {
                assert(n[n.len() - 1] != ']');
            }
        }
    } else {
        let t1 = TypeV { dims: (t.dims - 1) as nat, base: t.base };
        lemma_brackets_chars(t1.dims);
        assert(s =~= render_type(t1) + "[]"@);
        assert(s.len() == n.len() + 2 * t.dims);
        assert(s[s.len() - 1] == ']' && s[s.len() - 2] == '[') by {
            assert(s[s.len() - 1] == "[]"@[1]);
            assert(s[s.len() - 2] == "[]"@[0]);
        }
        assert(s != "void"@) by {
            if s == "void"@ {
                assert(s[s.len() - 1] == 'd');
            }
        }
        assert(s != "boolean"@) by {
            if s == "boolean"@ {
                assert(s[s.len() - 1] == 'n');
            }
        }
        assert(s != "byte"@) by {
            if s == "byte"@ {
                assert(s[s.len() - 1] == 'e');
            }
        }
        assert(s != "char"@) by {
            if s == "char"@ {
                assert(s[s.len() - 1] == 'r');
            }
        }
        assert(s != "short"@) by {
            if s == "short"@ {
                assert(s[s.len() - 1] == 't');
            }
        }
        assert(s != "int"@) by {
            if s == "int"@ {
                assert(s[s.len() - 1] == 't');
            }
        }
        assert(s != "long"@) by {
            if s == "long"@ {
                assert(s[s.len() - 1] == 'g');
            }
        }
        assert(s != "float"@) by {
            if s == "float"@ {
                assert(s[s.len() - 1] == 't');
            }
        }
        assert(s != "double"@) by {
            if s == "double"@ {
                assert(s[s.len() - 1] == 'e');
            }
        }
        assert(s.subrange(0, s.len() - 2) =~= render_type(t1));
        lemma_type_print_parse(t1);
        assert(spec_from_source_name(s) =~= t);
    }
}

/// Print-parse round trip for the header line: a valid type and a message
/// read back from `type: message`.
pub proof fn lemma_header_print_parse(t: TypeV, message: Seq<char>)
    requires
        t.base is Object,
        object_name_ok(t.base->Object_0),
    ensures
        spec_header_line(render_type(t) + ": "@ + message) == Some((t, message)),
{
    reveal_strlit(": ");
    let rt = render_type(t);
    let l = rt + ": "@ + message;
    let n = t.base->Object_0;
    lemma_brackets_chars(t.dims);
    assert(forall|k: int| 0 <= k < rt.len() ==> rt[k] == (if k < n.len() {
        n[k]
    } else {
        brackets(t.dims)[k - n.len()]
    }));
    assert forall|k: int| 0 <= k < rt.len() implies crate::parsing::spec_jtype_char(
        #[trigger] l[k],
    ) by {
        assert(l[k] == rt[k]);
        if k >= n.len() {
            assert(rt[k] == '[' || rt[k] == ']');
        }
    }
    assert(l[rt.len() as int] == ':' && l[rt.len() + 1int] == ' ') by {
        assert(l[rt.len() as int] == ": "@[0]);
        assert(l[rt.len() + 1int] == ": "@[1]);
    }
    assert(!crate::parsing::spec_jtype_char(':'));
    crate::parsing::lemma_scan_jtype_eq(l, 0, rt.len() as int);
    assert(l.subrange(0, rt.len() as int) =~= rt);
    assert(l.subrange(rt.len() + 2int, l.len() as int) =~= message);
    lemma_type_print_parse(t);
}

/// A frame that survives the print-parse round trip: names made of scanner
/// text, the method dot-free (the printed form is re-split at the last dot),
/// the module and file non-empty when printed.
pub open spec fn frame_round_trip_ok(f: FrameV) -> bool {
    &&& match f.module {
        Some(m) => m.len() > 0 && jtype_text(m),
        None => true,
    }
    &&& jtype_text(f.class)
    &&& jtype_text(f.method)
    &&& forall|k: int| 0 <= k < f.method.len() ==> (#[trigger] f.method[k]) != '.'
    &&& f.file.len() > 0 && jtype_text(f.file)
}

proof fn lemma_jtype_no_ctl(c: char)
    requires
        crate::parsing::spec_jtype_char(c),
    ensures
        c != '\n' && c != '\r',
{
}

/// A printed frame holds no line terminator and ends in its closing
/// parenthesis.
proof fn lemma_render_frame_chars(f: FrameV)
    requires
        frame_round_trip_ok(f),
    ensures
        render_frame(f).len() > 0,
        render_frame(f)[render_frame(f).len() - 1] == ')',
        forall|k: int|
            0 <= k < render_frame(f).len() ==> (#[trigger] render_frame(f)[k]) != '\n'
                && render_frame(f)[k] != '\r',
{
    let rf = render_frame(f);
    let mpart: Seq<char> = match f.module {
        Some(m) => m + seq!['/'],
        None => Seq::<char>::empty(),
    };
    let lpart: Seq<char> = match f.line {
        Some(n) => seq![':'] + dec_str(n as nat),
        None => Seq::<char>::empty(),
    };
    assert(rf == mpart + f.class + seq!['.'] + f.method + seq!['('] + f.file + lpart
        + seq![')']);
    assert(forall|k: int| 0 <= k < mpart.len() ==> (#[trigger] mpart[k]) != '\n' && mpart[k]
        != '\r') by {
        match f.module {
            Some(m) => {
                assert(mpart == m + seq!['/']);
                assert forall|k: int| 0 <= k < mpart.len() implies (#[trigger] mpart[k]) != '\n'
                    && mpart[k] != '\r' by {
                    if k < m.len() {
                        lemma_jtype_no_ctl(m[k]);
                    }
                }
            },
            None => {},
        }
    }
    assert(forall|k: int| 0 <= k < lpart.len() ==> (#[trigger] lpart[k]) != '\n' && lpart[k]
        != '\r') by {
        match f.line {
            Some(n) => {
                assert(lpart == seq![':'] + dec_str(n as nat));
                crate::parsing::lemma_dec_str_digits(n as nat);
                assert forall|k: int| 0 <= k < lpart.len() implies (#[trigger] lpart[k]) != '\n'
                    && lpart[k] != '\r' by {
                    if k >= 1 {
                        assert(crate::parsing::spec_java_digit(dec_str(n as nat)[k - 1]));
                    }
                }
            },
            None => {},
        }
    }
    assert forall|k: int| 0 <= k < rf.len() implies (#[trigger] rf[k]) != '\n' && rf[k] != '\r' by {
        let c0 = mpart.len() as int;
        let d0 = c0 + f.class.len();
        let m0 = d0 + 1;
        let p0 = m0 + f.method.len();
        let f0 = p0 + 1;
        let l0 = f0 + f.file.len();
        let e0 = l0 + lpart.len();
        if k < c0 {
        } else if k < d0 {
            assert(rf[k] == f.class[k - c0]);
            lemma_jtype_no_ctl(f.class[k - c0]);
        } else if k == d0 {
            assert(rf[k] == '.');
        } else if k < p0 {
            assert(rf[k] == f.method[k - m0]);
            lemma_jtype_no_ctl(f.method[k - m0]);
        } else if k == p0 {
            assert(rf[k] == '(');
        } else if k < l0 {
            assert(rf[k] == f.file[k - f0]);
            lemma_jtype_no_ctl(f.file[k - f0]);
        } else if k < e0 {
            assert(rf[k] == lpart[k - l0]);
        } else {
            assert(rf[k] == ')');
        }
    }
    assert(rf[rf.len() - 1] == ')');
}

proof fn lemma_render_frames_front(fs: Seq<FrameV>)
    requires
        fs.len() > 0,
    ensures
        render_frames(fs) == "\tat "@ + render_frame(fs[0]) + seq!['\n'] + render_frames(
            fs.drop_first(),
        ),
    decreases fs.len(),
{
    if fs.len() == 1 {
        assert(fs.drop_last() =~= Seq::<FrameV>::empty());
        assert(fs.drop_first() =~= Seq::<FrameV>::empty());
        assert(render_frames(fs) =~= "\tat "@ + render_frame(fs[0]) + seq!['\n']
            + render_frames(fs.drop_first()));
    } else {
        let dl = fs.drop_last();
        lemma_render_frames_front(dl);
        assert(dl[0] == fs[0]);
        assert(dl.drop_first() =~= fs.drop_first().drop_last());
        assert(fs.drop_first()[fs.drop_first().len() - 1] == fs[fs.len() - 1]);
        assert(render_frames(fs.drop_first()) == render_frames(fs.drop_first().drop_last())
            + "\tat "@ + render_frame(fs[fs.len() - 1]) + seq!['\n']);
        assert(render_frames(fs) =~= "\tat "@ + render_frame(fs[0]) + seq!['\n']
            + render_frames(fs.drop_first()));
    }
}

/// Frame lines are read the same way wherever they stand among the split
/// lines.
proof fn lemma_frames_from_shift(
    pre: Seq<(Seq<char>, bool)>,
    ls: Seq<(Seq<char>, bool)>,
    d: int,
)
    requires
        0 <= d,
    ensures
        spec_frames_from(pre + ls, pre.len() + d) == spec_frames_from(ls, d),
    decreases ls.len() - d,
{
    if d >= ls.len() {
    } else {
        assert((pre + ls)[pre.len() + d] == ls[d]);
        let (text, term) = ls[d];
        if ws_line(text) {
            assert(all_ws_from(pre + ls, pre.len() + d + 1) == all_ws_from(ls, d + 1)) by {
                if all_ws_from(ls, d + 1) {
                    assert forall|k: int|
                        pre.len() + d + 1 <= k < (pre + ls).len() implies ws_line(
                        (#[trigger] (pre + ls)[k]).0,
                    ) by {
                        assert((pre + ls)[k] == ls[k - pre.len()]);
                    }
                } else {
                    let w = choose|k: int|
                        d + 1 <= k < ls.len() && !ws_line((#[trigger] ls[k]).0);
                    assert((pre + ls)[pre.len() + w] == ls[w]);
                }
            }
        } else if term {
            lemma_frames_from_shift(pre, ls, d + 1);
        }
    }
}

/// Every printed frame line parses back, in order.
#[verifier::rlimit(100)]
proof fn lemma_frames_lines_parse(fs: Seq<FrameV>)
    requires
        forall|k: int| 0 <= k < fs.len() ==> frame_round_trip_ok(#[trigger] fs[k]),
    ensures
        spec_frames_from(spec_split_lines(render_frames(fs)), 0) == Some(fs),
    decreases fs.len(),
{
    reveal_strlit("\tat ");
    if fs.len() == 0 {
        assert(render_frames(fs) =~= Seq::<char>::empty());
        assert(spec_split_lines(Seq::<char>::empty()) =~= Seq::<(Seq<char>, bool)>::empty());
        assert(Some(fs) =~= Some(Seq::<FrameV>::empty()));
    } else {
        let f0 = fs[0];
        let linetext = "\tat "@ + render_frame(f0);
        lemma_render_frames_front(fs);
        lemma_render_frame_chars(f0);
        assert(forall|k: int| 0 <= k < linetext.len() ==> (#[trigger] linetext[k]) != '\n') by {
            assert("\tat "@ =~= seq!['\t', 'a', 't', ' ']);
        }
        assert(linetext[linetext.len() - 1] == ')');
        assert(render_frames(fs) =~= linetext + seq!['\n'] + render_frames(fs.drop_first()));
        crate::parsing::lemma_split_lines_cons(linetext, render_frames(fs.drop_first()));
        let lines = spec_split_lines(render_frames(fs));
        assert(lines == seq![(linetext, true)] + spec_split_lines(
            render_frames(fs.drop_first()),
        ));
        assert(lines[0] == (linetext, true));
        assert(!ws_line(linetext)) by {
            assert(linetext[1] == 'a') by {
                assert("\tat "@ =~= seq!['\t', 'a', 't', ' ']);
            }
        }
        assert(spec_frame_line(linetext) == Some(f0)) by {
            lemma_frame_print_parse(f0);
            assert(linetext =~= seq!['\t', 'a', 't', ' '] + render_frame(f0)) by {
                assert("\tat "@ =~= seq!['\t', 'a', 't', ' ']);
            }
        }
        lemma_frames_from_shift(
            seq![(linetext, true)],
            spec_split_lines(render_frames(fs.drop_first())),
            0,
        );
        lemma_frames_lines_parse(fs.drop_first());
        assert(spec_frames_from(lines, 1) == Some(fs.drop_first()));
        assert(seq![f0] + fs.drop_first() =~= fs);
    }
}

/// A trace that survives the print-parse round trip: a valid object
/// exception type, a message without line terminators, and round-trippable
/// frames.
pub open spec fn trace_round_trip_ok(st: StacktraceV) -> bool {
    &&& st.ty.base is Object
    &&& object_name_ok(st.ty.base->Object_0)
    &&& forall|k: int| 0 <= k < st.message.len() ==> (#[trigger] st.message[k]) != '\n'
    &&& (st.message.len() > 0 ==> st.message[st.message.len() - 1] != '\r')
    &&& forall|k: int| 0 <= k < st.frames.len() ==> frame_round_trip_ok(#[trigger] st.frames[k])
}

/// Print-parse round trip: a round-trippable trace parses back exactly from
/// its own canonical printing.
pub proof fn lemma_stacktrace_print_parse(st: StacktraceV)
    requires
        trace_round_trip_ok(st),
    ensures
        spec_stacktrace(render_stacktrace(st)) == Some(st),
{
    reveal_strlit(": ");
    let header = render_type(st.ty) + ": "@ + st.message;
    let s = render_stacktrace(st);
    assert(s =~= header + seq!['\n'] + render_frames(st.frames));
    let rt = render_type(st.ty);
    let n = st.ty.base->Object_0;
    lemma_brackets_chars(st.ty.dims);
    assert(forall|k: int| 0 <= k < header.len() ==> (#[trigger] header[k]) != '\n') by {
        assert forall|k: int| 0 <= k < header.len() implies (#[trigger] header[k]) != '\n' by {
            if k < rt.len() {
                assert(header[k] == rt[k]);
                if k < n.len() {
                    lemma_jtype_no_ctl(n[k]);
                } else {
                    assert(rt[k] == brackets(st.ty.dims)[k - n.len()]);
                }
            } else if k < rt.len() + 2 {
                assert(header[k] == ": "@[k - rt.len()]);
            } else {
                assert(header[k] == st.message[k - rt.len() - 2]);
            }
        }
    }
    assert(header.len() > 0 ==> header[header.len() - 1] != '\r') by {
        if st.message.len() > 0 {
            assert(header[header.len() - 1] == st.message[st.message.len() - 1]);
        } else {
            assert(header[header.len() - 1] == ": "@[1]);
        }
    }
    crate::parsing::lemma_split_lines_cons(header, render_frames(st.frames));
    let lines = spec_split_lines(s);
    assert(lines == seq![(header, true)] + spec_split_lines(render_frames(st.frames)));
    assert(lines[0] == (header, true));
    lemma_header_print_parse(st.ty, st.message);
    lemma_frames_from_shift(
        seq![(header, true)],
        spec_split_lines(render_frames(st.frames)),
        0,
    );
    lemma_frames_lines_parse(st.frames);
    assert(spec_frames_from(lines, 1) == Some(st.frames));
    assert(spec_stacktrace(s) == Some(
        StacktraceV { ty: st.ty, message: st.message, frames: st.frames },
    ));
    assert(StacktraceV { ty: st.ty, message: st.message, frames: st.frames } =~= st);
}
} // verus!
