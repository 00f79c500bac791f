//! Backend-independent program model.
//!
//! Trellis owns its normalized representation; parser and indexer backends
//! never appear in these types. Symbol and module identity are
//! deterministic and derived from canonical relative paths plus Python
//! nesting — never from absolute checkout locations, traversal order, or
//! parser allocation identity.
use vstd::prelude::*;

use crate::order::{bytes_le_exec, lemma_bytes_total_ordering, Ordered};
use crate::text::{chars_end_with, chars_of, ends_with, lemma_string_le_facts, push_char, push_str, string_of_chars, utf8};

verus! {

/// Some position holds `..`.
pub open spec fn has_dot_dot(s: Seq<char>) -> bool {
    exists|i: int| 0 <= i < s.len() - 1 && #[trigger] s[i] == '.' && s[i + 1] == '.'
}

/// Some `.`-separated part of `s` is empty.
pub open spec fn has_empty_part(s: Seq<char>) -> bool {
    ||| s.len() == 0
    ||| s[0] == '.'
    ||| s.last() == '.'
    ||| has_dot_dot(s)
}

/// `/` replaced by `.`.
pub open spec fn slashes_to_dots(s: Seq<char>) -> Seq<char> {
    s.map_values(|c: char| if c == '/' { '.' } else { c })
}

/// The module name of a canonical relative `.py` path: separators become
/// `.`, `.py` is stripped, `__init__.py` maps to its package.
pub open spec fn module_name_of(path: Seq<char>) -> Option<Seq<char>> {
    if !ends_with(path, ".py"@) {
        None
    } else if path.len() > 0 && path[0] == '/' {
        None
    } else if has_dot_dot(path) {
        None
    } else {
        let dotted = slashes_to_dots(path.subrange(0, path.len() - 3));
        let module = if ends_with(dotted, ".__init__"@) {
            dotted.subrange(0, dotted.len() - 9)
        } else {
            dotted
        };
        if has_empty_part(module) {
            None
        } else {
            Some(module)
        }
    }
}

fn has_dot_dot_exec(s: &Vec<char>) -> (r: bool)
    ensures
        r == has_dot_dot(s@),
{
    let mut i: usize = 0;
    while i < s.len()
        invariant
            i <= s@.len(),
            forall|k: int| 0 <= k < i && k < s@.len() - 1 ==> !(#[trigger] s@[k] == '.' && s@[k + 1] == '.'),
        decreases s.len() - i,
    {
        if i + 1 < s.len() && s[i] == '.' && s[i + 1] == '.' {
            return true;
        }
        i = i + 1;
    }
    false
}

fn has_empty_part_exec(s: &Vec<char>) -> (r: bool)
    ensures
        r == has_empty_part(s@),
{
    if s.len() == 0 {
        return true;
    }
    s[0] == '.' || s[s.len() - 1] == '.' || has_dot_dot_exec(s)
}

/// Identity of a Python source unit (module), derived from its canonical
/// repo-relative path.
#[derive(Debug, PartialEq, Eq, PartialOrd, Ord, Hash)]
pub struct ModuleId(String);

impl View for ModuleId {
    type V = Seq<char>;

    closed spec fn view(&self) -> Seq<char> {
        self.0@
    }
}

impl Clone for ModuleId {
    fn clone(&self) -> (r: Self)
        ensures
            r@ == self@,
    {
        ModuleId(self.0.clone())
    }
}

impl Ordered for ModuleId {
    open spec fn view_le(a: Seq<char>, b: Seq<char>) -> bool {
        String::view_le(a, b)
    }

    proof fn le_total_ordering() {
        String::le_total_ordering();
        assert((|a: Seq<char>, b: Seq<char>| Self::view_le(a, b)) =~= (|a: Seq<char>, b: Seq<char>| String::view_le(a, b)));
    }

    fn le_exec(&self, other: &Self) -> (r: bool) {
        self.0.le_exec(&other.0)
    }

    fn eq_exec(&self, other: &Self) -> (r: bool) {
        self.0 == other.0
    }
}

impl ModuleId {
    /// Derive the module identity from a canonical relative path
    /// (`/`-separated, `.py`-suffixed). Returns `None` for non-Python
    /// paths or non-canonical forms.
    pub fn from_path(path: &str) -> (r: Option<Self>)
        ensures
            match r {
                Some(m) => module_name_of(path@) == Some(m@),
                None => module_name_of(path@) is None,
            },
    {
        proof {
            reveal_strlit(".py");
            reveal_strlit(".__init__");
        }
        let cs = chars_of(path);
        let py = chars_of(".py");
        if !chars_end_with(&cs, py.as_slice()) {
            return None;
        }
        if (cs.len() > 0 && cs[0] == '/') || has_dot_dot_exec(&cs) {
            return None;
        }
        let stem_len = cs.len() - 3;
        let mut dotted: Vec<char> = Vec::new();
        let mut i: usize = 0;
        while i < stem_len
            invariant
                i <= stem_len,
                stem_len + 3 == cs@.len(),
                dotted@ == slashes_to_dots(cs@.subrange(0, i as int)),
            decreases stem_len - i,
        {
            let c = cs[i];
            dotted.push(if c == '/' { '.' } else { c });
            proof {
                assert(slashes_to_dots(cs@.subrange(0, i + 1)) =~= slashes_to_dots(
                    cs@.subrange(0, i as int),
                ).push(if c == '/' { '.' } else { c }));
            }
            i = i + 1;
        }
        let init = chars_of(".__init__");
        let module: Vec<char> = if chars_end_with(&dotted, init.as_slice()) {
            let keep = dotted.len() - 9;
            let mut m: Vec<char> = Vec::new();
            let mut k: usize = 0;
            while k < keep
                invariant
                    k <= keep,
                    keep + 9 == dotted@.len(),
                    m@ == dotted@.subrange(0, k as int),
                decreases keep - k,
            {
                m.push(dotted[k]);
                proof {
                    assert(dotted@.subrange(0, k + 1) =~= dotted@.subrange(0, k as int).push(
                        dotted@[k as int],
                    ));
                }
                k = k + 1;
            }
            m
        } else {
            dotted
        };
        if has_empty_part_exec(&module) {
            return None;
        }
        Some(ModuleId(string_of_chars(module.as_slice())))
    }

    /// The canonical dotted module name.
    pub fn name(&self) -> (r: &str)
        ensures
            r@ == self@,
    {
        self.0.as_str()
    }
}

/// Identity of a program symbol: `module` + dotted nesting path, e.g.
/// `auth.tokens.refresh_token` or `auth.service.AuthService.login`.
#[derive(Debug, PartialEq, Eq, PartialOrd, Ord, Hash)]
pub struct SymbolPath(String);

impl View for SymbolPath {
    type V = Seq<char>;

    closed spec fn view(&self) -> Seq<char> {
        self.0@
    }
}

impl Clone for SymbolPath {
    fn clone(&self) -> (r: Self)
        ensures
            r@ == self@,
    {
        proof {
            use_type_invariant(self);
        }
        SymbolPath(self.0.clone())
    }
}

impl Ordered for SymbolPath {
    open spec fn view_le(a: Seq<char>, b: Seq<char>) -> bool {
        String::view_le(a, b)
    }

    proof fn le_total_ordering() {
        String::le_total_ordering();
        assert((|a: Seq<char>, b: Seq<char>| Self::view_le(a, b)) =~= (|a: Seq<char>, b: Seq<char>| String::view_le(a, b)));
    }

    fn le_exec(&self, other: &Self) -> (r: bool) {
        self.0.le_exec(&other.0)
    }

    fn eq_exec(&self, other: &Self) -> (r: bool) {
        self.0 == other.0
    }
}

impl SymbolPath {
    #[verifier::type_invariant]
    spec fn well_formed(self) -> bool {
        !has_empty_part(self.0@)
    }

    /// Construct from a canonical dotted path. Returns `None` for empty or
    /// malformed paths (a leading, trailing or doubled `.`).
    pub fn new(path: &str) -> (r: Option<Self>)
        ensures
            match r {
                Some(s) => !has_empty_part(path@) && s@ == path@,
                None => has_empty_part(path@),
            },
    {
        let cs = chars_of(path);
        if has_empty_part_exec(&cs) {
            return None;
        }
        Some(SymbolPath(crate::text::owned(path)))
    }

    /// Construct a child symbol path (e.g. a method of a class).
    pub fn child(&self, name: &str) -> (r: Option<Self>)
        ensures
            match r {
                Some(s) => !has_empty_part(self@ + "."@ + name@) && s@ == self@ + "."@ + name@,
                None => has_empty_part(self@ + "."@ + name@),
            },
    {
        let mut s = crate::text::owned(self.0.as_str());
        push_char(&mut s, '.');
        push_str(&mut s, name);
        proof {
            reveal_strlit(".");
            assert(s@ =~= self@ + "."@ + name@);
        }
        Self::new(s.as_str())
    }

    /// The canonical dotted path.
    pub fn as_str(&self) -> (r: &str)
        ensures
            r@ == self@,
            !has_empty_part(r@),
    {
        proof {
            use_type_invariant(self);
        }
        self.0.as_str()
    }
}

/// Syntactic declaration kind.
#[derive(Debug, Clone, Copy, PartialEq, Eq, Structural, Hash)]
pub enum DefKind {
    /// A module-level unit (implicit declaration of the source unit).
    Module,
    /// A class declaration.
    Class,
    /// A plain function (module-level or nested).
    Function,
    /// An `async def` function.
    AsyncFunction,
    /// A function declared directly in a class body.
    Method,
    /// An `async def` declared directly in a class body.
    AsyncMethod,
}

impl DefKind {
    /// Whether the kind denotes an async declaration.
    pub fn is_async(self) -> (r: bool)
        ensures
            r == (self == DefKind::AsyncFunction || self == DefKind::AsyncMethod),
    {
        matches!(self, DefKind::AsyncFunction | DefKind::AsyncMethod)
    }
}

/// A source span: 0-based line/column offsets, deterministic,
/// path-relative.
#[derive(Debug, Clone, Copy, PartialEq, Eq, Structural, PartialOrd, Ord, Hash)]
pub struct SourceSpan {
    /// 0-based start line.
    pub start_line: u32,
    /// 0-based start column (bytes).
    pub start_column: u32,
    /// 0-based end line.
    pub end_line: u32,
    /// 0-based end column (bytes).
    pub end_column: u32,
}

/// Parse status of a source unit. Parse **success is syntactic evidence
/// only** — never proof of semantic resolvability.
#[derive(Debug, Clone, Copy, PartialEq, Eq, Structural)]
pub enum ParseStatus {
    /// The unit parsed without syntax errors.
    Parsed,
    /// The unit contains syntax errors. Definitions extracted from such
    /// units may be incomplete; the failure is always explicit, never
    /// silently omitted.
    Failed {
        /// Number of error nodes encountered.
        error_count: u32,
        /// First error position, if located.
        first_error: Option<SourceSpan>,
    },
}

impl ParseStatus {
    /// Whether the unit parsed cleanly.
    pub fn is_ok(&self) -> (r: bool)
        ensures
            r == (*self is Parsed),
    {
        matches!(self, ParseStatus::Parsed)
    }
}

/// One syntactic definition.
#[derive(Debug, Clone, PartialEq, Eq)]
pub struct Definition {
    /// Canonical symbol path of the definition.
    pub symbol: SymbolPath,
    /// Syntactic declaration kind.
    pub kind: DefKind,
    /// Source span of the declaration.
    pub span: SourceSpan,
}

/// Syntactic parameter kind.
#[derive(Debug, Clone, Copy, PartialEq, Eq, Structural, PartialOrd, Ord, Hash)]
pub enum ParamKind {
    /// Positional-or-keyword.
    Positional,
    /// Before a `/` marker.
    PositionalOnly,
    /// After a `*` (bare or `*args`) marker.
    KeywordOnly,
    /// `*args`.
    VarArgs,
    /// `**kwargs`.
    KwArgs,
}

/// One normalized parameter.
#[derive(Debug, Clone, PartialEq, Eq, PartialOrd, Ord, Hash)]
pub struct Param {
    /// Parameter name (no star/prefix decorations).
    pub name: String,
    /// Parameter kind.
    pub kind: ParamKind,
    /// Whitespace-normalized annotation source, if annotated.
    pub annotation: Option<String>,
    /// Whitespace-normalized default-value source, if present. Defaults
    /// participate in normalized signature equality.
    pub default: Option<String>,
}

/// What a [`Param`] records.
pub struct ParamModel {
    /// Parameter name.
    pub name: Seq<char>,
    /// Parameter kind.
    pub kind: ParamKind,
    /// Annotation text, if annotated.
    pub annotation: Option<Seq<char>>,
    /// Default-value text, if present.
    pub default: Option<Seq<char>>,
}

/// The view of an optional string.
pub open spec fn opt_text(o: Option<String>) -> Option<Seq<char>> {
    match o {
        Some(s) => Some(s@),
        None => None,
    }
}

impl View for Param {
    type V = ParamModel;

    open spec fn view(&self) -> ParamModel {
        ParamModel {
            name: self.name@,
            kind: self.kind,
            annotation: opt_text(self.annotation),
            default: opt_text(self.default),
        }
    }
}

/// A normalized signature. Equality covers parameter names/kinds/order,
/// annotations, defaults, return annotation, and async-ness. It excludes
/// decorators, docstrings, body, module qualification, and formatting.
#[derive(Debug, Clone, PartialEq, Eq, PartialOrd, Ord, Hash)]
pub struct Signature {
    /// Whether declared `async def`.
    pub is_async: bool,
    /// Parameters in declaration order.
    pub params: Vec<Param>,
    /// Whitespace-normalized return annotation, if present.
    pub ret: Option<String>,
}

/// The rendering of one parameter: star prefix, name, `: annotation`,
/// ` = default`.
pub open spec fn param_text(p: ParamModel) -> Seq<char> {
    let prefix = match p.kind {
        ParamKind::VarArgs => "*"@,
        ParamKind::KwArgs => "**"@,
        _ => Seq::<char>::empty(),
    };
    let annotated = match p.annotation {
        Some(a) => prefix + p.name + ": "@ + a,
        None => prefix + p.name,
    };
    match p.default {
        Some(d) => annotated + " = "@ + d,
        None => annotated,
    }
}

/// The state of a signature rendering after some parameters: the parts so
/// far, whether a `/` marker is still owed, whether keyword-only context is
/// open.
pub struct RenderState {
    /// The rendered parts so far.
    pub parts: Seq<Seq<char>>,
    /// A `/` marker is owed before the next non-positional-only parameter.
    pub pos_only_open: bool,
    /// Keyword-only context is open (after `*` or `*args`).
    pub kw_only_open: bool,
}

/// One parameter's contribution: a `/` closes positional-only parameters,
/// a `*` opens keyword-only context (unless `*args` already did), then the
/// parameter itself.
pub open spec fn render_step(st: RenderState, p: ParamModel) -> RenderState {
    let close_pos = st.pos_only_open && p.kind != ParamKind::PositionalOnly;
    let parts1 = if close_pos { st.parts.push("/"@) } else { st.parts };
    let open_kw = p.kind == ParamKind::KeywordOnly && !st.kw_only_open;
    let parts2 = if open_kw { parts1.push("*"@) } else { parts1 };
    RenderState {
        parts: parts2.push(param_text(p)),
        pos_only_open: st.pos_only_open && !close_pos,
        kw_only_open: st.kw_only_open || open_kw || p.kind == ParamKind::VarArgs,
    }
}

/// The rendering state after the parameters, from an initial state.
pub open spec fn render_from(st: RenderState, ps: Seq<ParamModel>) -> RenderState
    decreases ps.len(),
{
    if ps.len() == 0 {
        st
    } else {
        render_step(render_from(st, ps.drop_last()), ps.last())
    }
}

/// The parts joined with a separator.
pub open spec fn join_with(parts: Seq<Seq<char>>, sep: Seq<char>) -> Seq<char>
    decreases parts.len(),
{
    if parts.len() == 0 {
        Seq::empty()
    } else if parts.len() == 1 {
        parts[0]
    } else {
        join_with(parts.drop_last(), sep) + sep + parts.last()
    }
}

/// Some parameter is positional-only.
pub open spec fn any_positional_only(ps: Seq<ParamModel>) -> bool {
    exists|i: int| 0 <= i < ps.len() && (#[trigger] ps[i]).kind == ParamKind::PositionalOnly
}

/// The canonical rendering of a signature, e.g. `(self, code: str) -> bool`.
pub open spec fn canonical_signature(params: Seq<ParamModel>, ret: Option<Seq<char>>) -> Seq<char> {
    let st = render_from(
        RenderState { parts: Seq::empty(), pos_only_open: any_positional_only(params), kw_only_open: false },
        params,
    );
    let parts = if st.pos_only_open { st.parts.push("/"@) } else { st.parts };
    let body = "("@ + join_with(parts, ", "@) + ")"@;
    match ret {
        Some(r) => body + " -> "@ + r,
        None => body,
    }
}

fn push_opt(out: &mut String, sep: &str, o: &Option<String>)
    ensures
        final(out)@ == match opt_text(*o) {
            Some(t) => old(out)@ + sep@ + t,
            None => old(out)@,
        },
{
    match o {
        Some(t) => {
            push_str(out, sep);
            push_str(out, t.as_str());
        },
        None => {},
    }
}

fn param_rendering(p: &Param) -> (r: String)
    ensures
        r@ == param_text(p@),
{
    let mut s = String::new();
    match p.kind {
        ParamKind::VarArgs => push_str(&mut s, "*"),
        ParamKind::KwArgs => push_str(&mut s, "**"),
        _ => {},
    }
    push_str(&mut s, p.name.as_str());
    push_opt(&mut s, ": ", &p.annotation);
    push_opt(&mut s, " = ", &p.default);
    proof {
        assert(s@ =~= param_text(p@));
    }
    s
}

fn join_strings(parts: &Vec<String>, sep: &str) -> (r: String)
    ensures
        r@ == join_with(crate::order::views(parts@), sep@),
{
    let ghost pv = crate::order::views(parts@);
    let mut out = String::new();
    let mut i: usize = 0;
    while i < parts.len()
        invariant
            i <= parts@.len(),
            pv == crate::order::views(parts@),
            out@ == join_with(pv.subrange(0, i as int), sep@),
        decreases parts.len() - i,
    {
        let ghost before = out@;
        if i > 0 {
            push_str(&mut out, sep);
        }
        push_str(&mut out, parts[i].as_str());
        proof {
            let a = pv.subrange(0, i as int);
            let b = pv.subrange(0, i + 1);
            assert(b.drop_last() =~= a);
            assert(b.last() == parts@[i as int]@);
            if i == 0 {
                assert(out@ =~= b[0]);
            }
        }
        i = i + 1;
    }
    assert(pv.subrange(0, parts@.len() as int) =~= pv);
    out
}

/// The strings joined with a separator.
pub fn join_strings_pub(parts: &Vec<String>, sep: &str) -> (r: String)
    ensures
        r@ == join_with(crate::order::views(parts@), sep@),
{
    join_strings(parts, sep)
}

impl Signature {
    /// Canonical rendering, e.g. `(self, code: str) -> bool`. Rendered
    /// text is whitespace-normalized; positional-only parameters are closed
    /// by `/`, keyword-only ones opened by `*` unless `*args` opened them.
    pub fn canonical(&self) -> (r: String)
        ensures
            r@ == canonical_signature(self.params@.map_values(|p: Param| p@), opt_text(self.ret)),
    {
        let ghost ps = self.params@.map_values(|p: Param| p@);
        let mut any_pos = false;
        let mut k: usize = 0;
        while k < self.params.len()
            invariant
                k <= self.params@.len(),
                ps == self.params@.map_values(|p: Param| p@),
                any_pos == exists|i: int| 0 <= i < k && (#[trigger] ps[i]).kind == ParamKind::PositionalOnly,
            decreases self.params.len() - k,
        {
            if matches!(self.params[k].kind, ParamKind::PositionalOnly) {
                assert(ps[k as int].kind == ParamKind::PositionalOnly);
                any_pos = true;
            }
            k = k + 1;
        }
        let ghost init = RenderState { parts: Seq::empty(), pos_only_open: any_pos, kw_only_open: false };
        let mut parts: Vec<String> = Vec::new();
        let mut pos_only_open = any_pos;
        let mut kw_only_open = false;
        let mut i: usize = 0;
        while i < self.params.len()
            invariant
                i <= self.params@.len(),
                ps == self.params@.map_values(|p: Param| p@),
                ({
                    let st = render_from(init, ps.subrange(0, i as int));
                    &&& crate::order::views(parts@) == st.parts
                    &&& pos_only_open == st.pos_only_open
                    &&& kw_only_open == st.kw_only_open
                }),
            decreases self.params.len() - i,
        {
            let ghost pre = parts@;
            let ghost sub = ps.subrange(0, i + 1);
            proof {
                assert(sub.drop_last() =~= ps.subrange(0, i as int));
                assert(sub.last() == self.params@[i as int]@);
            }
            let kind = self.params[i].kind;
            if pos_only_open && !matches!(kind, ParamKind::PositionalOnly) {
                let piece = crate::text::owned("/");
                let ghost p0 = parts@;
                parts.push(piece);
                proof {
                    crate::order::lemma_views_push(p0, piece);
                }
                pos_only_open = false;
            }
            if matches!(kind, ParamKind::KeywordOnly) && !kw_only_open {
                let piece = crate::text::owned("*");
                let ghost p0 = parts@;
                parts.push(piece);
                proof {
                    crate::order::lemma_views_push(p0, piece);
                }
                kw_only_open = true;
            }
            if matches!(kind, ParamKind::VarArgs) {
                kw_only_open = true;
            }
            let piece = param_rendering(&self.params[i]);
            let ghost p0 = parts@;
            parts.push(piece);
            proof {
                crate::order::lemma_views_push(p0, piece);
            }
            i = i + 1;
        }
        proof {
            assert(ps.subrange(0, self.params@.len() as int) =~= ps);
        }
        if pos_only_open {
            let piece = crate::text::owned("/");
            let ghost p0 = parts@;
            parts.push(piece);
            proof {
                crate::order::lemma_views_push(p0, piece);
            }
        }
        let mut out = crate::text::owned("(");
        let joined = join_strings(&parts, ", ");
        push_str(&mut out, joined.as_str());
        push_str(&mut out, ")");
        push_opt(&mut out, " -> ", &self.ret);
        proof {
            assert(any_pos == any_positional_only(ps));
        }
        out
    }
}

/// One syntactic import statement.
#[derive(Debug, Clone, PartialEq, Eq, PartialOrd, Ord, Hash)]
pub struct Import {
    /// The module or symbol path as written (dots for module components).
    pub target: String,
    /// The local binding name (alias if present, else the imported name /
    /// module root).
    pub binding: String,
    /// Whether this is a `from X import y` (true) or `import X` (false).
    pub from_import: bool,
    /// 1-based line number of the import statement.
    pub line: u32,
}

} // verus!
