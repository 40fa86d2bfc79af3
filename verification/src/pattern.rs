//! Resource patterns: slash-delimited templates such as
//! `projects/{project}/topics/{topic}`, held as a sequence of literal and
//! variable components, and the compiler that tokenizes them.

use crate::text::{chars_of, str_eq, string_of};
use vstd::prelude::*;

verus! {

/// A component of a resource pattern
#[derive(Debug, Clone, PartialEq, Eq)]
pub enum ResourcePatternComponent {
    /// A literal string component (e.g., "projects/", "/topics/")
    Literal(String),
    /// A variable component (e.g., "project", "topic")
    Variable(String),
}

/// A parsed resource name pattern
#[derive(Debug, Clone, PartialEq, Eq)]
pub struct ResourcePattern {
    /// The original pattern string (e.g., "projects/{project}/topics/{topic}")
    pub pattern: String,
    /// The parsed components
    pub components: Vec<ResourcePatternComponent>,
}

/// What a component is, as mathematics: its kind and its text.
pub enum ComponentModel {
    Literal(Seq<char>),
    Variable(Seq<char>),
}

/// What a pattern is, as mathematics.
pub struct PatternModel {
    pub pattern: Seq<char>,
    pub components: Seq<ComponentModel>,
}

impl View for ResourcePatternComponent {
    type V = ComponentModel;

    open spec fn view(&self) -> ComponentModel {
        match self {
            ResourcePatternComponent::Literal(text) => ComponentModel::Literal(text@),
            ResourcePatternComponent::Variable(name) => ComponentModel::Variable(name@),
        }
    }
}

impl DeepView for ResourcePatternComponent {
    type V = ComponentModel;

    open spec fn deep_view(&self) -> ComponentModel {
        self@
    }
}

impl View for ResourcePattern {
    type V = PatternModel;

    open spec fn view(&self) -> PatternModel {
        PatternModel { pattern: self.pattern@, components: self.components.deep_view() }
    }
}

impl DeepView for ResourcePattern {
    type V = PatternModel;

    open spec fn deep_view(&self) -> PatternModel {
        self@
    }
}

/// First character of a variable name: `[A-Za-z_]`.
pub open spec fn is_name_start(c: char) -> bool {
    ('a' <= c && c <= 'z') || ('A' <= c && c <= 'Z') || c == '_'
}

/// Later character of a variable name: `[A-Za-z0-9_]`.
pub open spec fn is_name_char(c: char) -> bool {
    is_name_start(c) || ('0' <= c && c <= '9')
}

/// `s` is a variable name: `[A-Za-z_][A-Za-z0-9_]*`.
pub open spec fn is_variable_name(s: Seq<char>) -> bool {
    &&& s.len() > 0
    &&& is_name_start(s[0])
    &&& forall|k: int| 0 <= k < s.len() ==> is_name_char(#[trigger] s[k])
}

/// End of the run of name characters that starts at `i`.
pub open spec fn name_end(s: Seq<char>, i: int) -> int
    decreases s.len() - i,
{
    if 0 <= i < s.len() && is_name_char(s[i]) {
        name_end(s, i + 1)
    } else {
        i
    }
}

/// Where the `{name}` span that opens at `i` ends (one past its `}`), if one
/// opens there.
pub open spec fn span_end(s: Seq<char>, i: int) -> Option<int> {
    if 0 <= i && i + 1 < s.len() && s[i] == '{' && is_name_start(s[i + 1]) {
        let e = name_end(s, i + 1);
        if e < s.len() && s[e] == '}' {
            Some(e + 1)
        } else {
            None
        }
    } else {
        None
    }
}

/// The literal component for `s[a..b]`; nothing when the text is empty.
pub open spec fn literal_piece(s: Seq<char>, a: int, b: int) -> Seq<ComponentModel> {
    if a < b {
        seq![ComponentModel::Literal(s.subrange(a, b))]
    } else {
        Seq::empty()
    }
}

/// The components of `s[lit..]`, where `s[lit..i]` is literal text already
/// scanned and the scan stands at `i`.
pub open spec fn tokens_from(s: Seq<char>, lit: int, i: int) -> Seq<ComponentModel>
    decreases s.len() - i,
{
    if i < 0 || i >= s.len() {
        literal_piece(s, lit, s.len() as int)
    } else {
        match span_end(s, i) {
            Some(e) => {
                proof {
                    lemma_name_end_bounds(s, i + 1);
                }
                literal_piece(s, lit, i) + seq![ComponentModel::Variable(s.subrange(i + 1, e - 1))]
                    + tokens_from(s, e, e)
            },
            None => tokens_from(s, lit, i + 1),
        }
    }
}

/// The components of the pattern string `s`: each `{name}` span, scanning from
/// the left, is a variable; the text between and around the spans is literal,
/// and empty literals are dropped.
pub open spec fn compile_spec(s: Seq<char>) -> Seq<ComponentModel> {
    tokens_from(s, 0, 0)
}

/// The pattern that the pattern string `s` compiles to.
pub open spec fn compiled(s: Seq<char>) -> PatternModel {
    PatternModel { pattern: s, components: compile_spec(s) }
}

/// The surface text of one component: a literal as it is, a variable in braces.
pub open spec fn component_text(c: ComponentModel) -> Seq<char> {
    match c {
        ComponentModel::Literal(text) => text,
        ComponentModel::Variable(name) => seq!['{'] + name + seq!['}'],
    }
}

/// The components re-joined into a pattern string.
pub open spec fn surface(cs: Seq<ComponentModel>) -> Seq<char>
    decreases cs.len(),
{
    if cs.len() == 0 {
        Seq::empty()
    } else {
        surface(cs.drop_last()) + component_text(cs.last())
    }
}

/// The variable names among the first `k` components, in order.
pub open spec fn variable_names_upto(cs: Seq<ComponentModel>, k: int) -> Seq<Seq<char>>
    decreases k,
{
    if k <= 0 || k > cs.len() {
        Seq::empty()
    } else {
        match cs[k - 1] {
            ComponentModel::Variable(name) => variable_names_upto(cs, k - 1).push(name),
            ComponentModel::Literal(_) => variable_names_upto(cs, k - 1),
        }
    }
}

/// The variable names of the components, in order of occurrence.
pub open spec fn variable_names(cs: Seq<ComponentModel>) -> Seq<Seq<char>> {
    variable_names_upto(cs, cs.len() as int)
}

impl PatternModel {
    /// The invariant of a pattern: its components re-join to the pattern
    /// string, every variable is named by the grammar, no literal is empty.
    pub open spec fn wf(self) -> bool {
        &&& surface(self.components) == self.pattern
        &&& forall|k: int|
            0 <= k < self.components.len() ==> match #[trigger] self.components[k] {
                ComponentModel::Variable(name) => is_variable_name(name),
                ComponentModel::Literal(text) => text.len() > 0,
            }
    }
}

/// Where a run of name characters ends: within the text, after name
/// characters only.
pub proof fn lemma_name_end_bounds(s: Seq<char>, i: int)
    requires
        0 <= i <= s.len(),
    ensures
        i <= name_end(s, i) <= s.len(),
        forall|k: int| i <= k < name_end(s, i) ==> is_name_char(#[trigger] s[k]),
    decreases s.len() - i,
{
    if i < s.len() && is_name_char(s[i]) {
        lemma_name_end_bounds(s, i + 1);
    }
}

/// Re-joining distributes over concatenation.
pub proof fn lemma_surface_concat(a: Seq<ComponentModel>, b: Seq<ComponentModel>)
    ensures
        surface(a + b) == surface(a) + surface(b),
    decreases b.len(),
{
    if b.len() == 0 {
        assert(a + b =~= a);
        assert(surface(a) + surface(b) =~= surface(a));
    } else {
        assert((a + b).drop_last() =~= a + b.drop_last());
        assert((a + b).last() == b.last());
        lemma_surface_concat(a, b.drop_last());
        assert(surface(a + b) =~= surface(a) + surface(b));
    }
}

/// One component re-joins to its own text.
pub proof fn lemma_surface_one(c: ComponentModel)
    ensures
        surface(seq![c]) == component_text(c),
{
    assert(seq![c].drop_last() =~= Seq::<ComponentModel>::empty());
    assert(surface(Seq::<ComponentModel>::empty()) =~= Seq::<char>::empty());
    assert(seq![c].last() == c);
    assert(surface(seq![c]) =~= component_text(c));
}

/// All components of `cs` satisfy the per-component part of the invariant.
pub open spec fn components_valid(cs: Seq<ComponentModel>) -> bool {
    forall|k: int|
        0 <= k < cs.len() ==> match #[trigger] cs[k] {
            ComponentModel::Variable(name) => is_variable_name(name),
            ComponentModel::Literal(text) => text.len() > 0,
        }
}

/// What the scan leaves re-joins to the text it scanned, and each component it
/// makes is valid.
pub proof fn lemma_tokens_from(s: Seq<char>, lit: int, i: int)
    requires
        0 <= lit <= i <= s.len(),
    ensures
        surface(tokens_from(s, lit, i)) == s.subrange(lit, s.len() as int),
        components_valid(tokens_from(s, lit, i)),
    decreases s.len() - i,
{
    let n = s.len() as int;
    if i >= n {
        if lit < n {
            lemma_surface_one(ComponentModel::Literal(s.subrange(lit, n)));
        } else {
            assert(s.subrange(lit, n) =~= Seq::<char>::empty());
        }
    } else {
        match span_end(s, i) {
            Some(e) => {
                lemma_name_end_bounds(s, i + 1);
                lemma_tokens_from(s, e, e);
                let name = s.subrange(i + 1, e - 1);
                let head = literal_piece(s, lit, i);
                let var = seq![ComponentModel::Variable(name)];
                let rest = tokens_from(s, e, e);
                lemma_surface_concat(head + var, rest);
                lemma_surface_concat(head, var);
                lemma_surface_one(ComponentModel::Variable(name));
                if lit < i {
                    lemma_surface_one(ComponentModel::Literal(s.subrange(lit, i)));
                }
                assert(surface(head) =~= s.subrange(lit, i));
                assert(seq!['{'] + name + seq!['}'] =~= s.subrange(i, e));
                assert(s.subrange(lit, i) + s.subrange(i, e) + s.subrange(e, n) =~= s.subrange(
                    lit,
                    n,
                ));
                assert(is_variable_name(name)) by {
                    assert(name[0] == s[i + 1]);
                    assert forall|k: int| 0 <= k < name.len() implies is_name_char(
                        #[trigger] name[k],
                    ) by {
                        assert(name[k] == s[i + 1 + k]);
                    }
                }
                let all = head + var + rest;
                assert forall|k: int| 0 <= k < all.len() implies match #[trigger] all[k] {
                    ComponentModel::Variable(nm) => is_variable_name(nm),
                    ComponentModel::Literal(text) => text.len() > 0,
                } by {
                    if k < head.len() {
                        assert(all[k] == head[k]);
                    } else if k == head.len() {
                        assert(all[k] == var[0]);
                    } else {
                        assert(all[k] == rest[k - head.len() - 1]);
                    }
                }
            },
            None => {
                lemma_tokens_from(s, lit, i + 1);
            },
        }
    }
}

/// No span opens inside a span.
pub proof fn lemma_span_is_alone(s: Seq<char>, i: int, j: int)
    requires
        span_end(s, i) is Some,
        i < j < span_end(s, i)->Some_0,
    ensures
        span_end(s, j) is None,
{
    lemma_name_end_bounds(s, i + 1);
    let e = span_end(s, i)->Some_0;
    if j < e - 1 {
        assert(is_name_char(s[j]));
    }
}

/// The scan misses no span: every `{name}` span that opens at or after `lit`
/// is a variable among the components, and the components before it re-join
/// to the text between `lit` and the span.
pub proof fn lemma_tokens_find_spans(s: Seq<char>, lit: int, pos: int, i: int)
    requires
        0 <= lit <= pos <= s.len(),
        forall|j: int| lit <= j < pos ==> span_end(s, j) is None,
        lit <= i,
        span_end(s, i) is Some,
    ensures
        exists|k: int|
            0 <= k < tokens_from(s, lit, pos).len() && tokens_from(s, lit, pos)[k]
                == ComponentModel::Variable(s.subrange(i + 1, span_end(s, i)->Some_0 - 1))
                && #[trigger] surface(tokens_from(s, lit, pos).take(k)) == s.subrange(lit, i),
    decreases s.len() - pos,
{
    let t = tokens_from(s, lit, pos);
    let e = span_end(s, i)->Some_0;
    let wanted = ComponentModel::Variable(s.subrange(i + 1, e - 1));
    if pos >= s.len() {
        // a span opens inside the text, and none opens before `pos`
        assert(false);
    } else {
        match span_end(s, pos) {
            Some(e0) => {
                lemma_name_end_bounds(s, pos + 1);
                let head = literal_piece(s, lit, pos);
                let var = seq![ComponentModel::Variable(s.subrange(pos + 1, e0 - 1))];
                let rest = tokens_from(s, e0, e0);
                assert(surface(head) =~= s.subrange(lit, pos)) by {
                    if lit < pos {
                        lemma_surface_one(ComponentModel::Literal(s.subrange(lit, pos)));
                    }
                }
                if i == pos {
                    let k = head.len() as int;
                    assert(t[k] == wanted);
                    assert(t.take(k) =~= head);
                    assert(surface(t.take(k)) == s.subrange(lit, i));
                } else {
                    if i < e0 {
                        lemma_span_is_alone(s, pos, i);
                    }
                    lemma_tokens_find_spans(s, e0, e0, i);
                    let k1 = choose|k: int|
                        0 <= k < rest.len() && rest[k] == wanted && #[trigger] surface(rest.take(k))
                            == s.subrange(e0, i);
                    let k = head.len() + 1 + k1;
                    assert(t[k] == rest[k1]);
                    assert(t.take(k) =~= (head + var) + rest.take(k1));
                    lemma_surface_concat(head + var, rest.take(k1));
                    lemma_surface_concat(head, var);
                    lemma_surface_one(var[0]);
                    assert(seq!['{'] + s.subrange(pos + 1, e0 - 1) + seq!['}'] =~= s.subrange(
                        pos,
                        e0,
                    ));
                    assert(s.subrange(lit, pos) + s.subrange(pos, e0) + s.subrange(e0, i)
                        =~= s.subrange(lit, i));
                    assert(surface(t.take(k)) == s.subrange(lit, i));
                }
            },
            None => {
                lemma_tokens_find_spans(s, lit, pos + 1, i);
            },
        }
    }
}

/// The compiler finds every span: wherever a `{name}` span opens in a pattern
/// string, the compiled pattern has the variable of that name, and the
/// components before it re-join to the text before the span.
pub proof fn lemma_compile_finds_every_span(s: Seq<char>, i: int)
    requires
        span_end(s, i) is Some,
    ensures
        exists|k: int|
            0 <= k < compile_spec(s).len() && compile_spec(s)[k] == ComponentModel::Variable(
                s.subrange(i + 1, span_end(s, i)->Some_0 - 1),
            ) && #[trigger] surface(compile_spec(s).take(k)) == s.subrange(0, i),
{
    lemma_tokens_find_spans(s, 0, 0, i);
    let t = tokens_from(s, 0, 0);
    let wanted = ComponentModel::Variable(s.subrange(i + 1, span_end(s, i)->Some_0 - 1));
    let k = choose|k: int|
        0 <= k < t.len() && t[k] == wanted && #[trigger] surface(t.take(k)) == s.subrange(0, i);
    assert(compile_spec(s) == t);
    assert(surface(compile_spec(s).take(k)) == s.subrange(0, i));
}

/// A variable of a well-formed pattern is a span of the pattern string: where
/// the components before it end, a `{name}` span opens that holds its name.
pub proof fn lemma_variable_is_span(p: PatternModel, k: int)
    requires
        p.wf(),
        0 <= k < p.components.len(),
        p.components[k] is Variable,
    ensures
        ({
            let at = surface(p.components.take(k)).len() as int;
            let name = p.components[k]->Variable_0;
            &&& span_end(p.pattern, at) == Some(at + name.len() + 2)
            &&& p.pattern.subrange(at + 1, at + 1 + name.len()) == name
        }),
{
    let cs = p.components;
    let s = p.pattern;
    let before = surface(cs.take(k));
    let at = before.len() as int;
    let name = cs[k]->Variable_0;
    let after = surface(cs.skip(k + 1));
    assert(cs =~= (cs.take(k) + seq![cs[k]]) + cs.skip(k + 1));
    lemma_surface_concat(cs.take(k) + seq![cs[k]], cs.skip(k + 1));
    lemma_surface_concat(cs.take(k), seq![cs[k]]);
    lemma_surface_one(cs[k]);
    let text = seq!['{'] + name + seq!['}'];
    assert(s == (before + text) + after);
    assert(is_variable_name(name));
    assert(s[at] == '{') by {
        assert(s[at] == text[0]);
    }
    assert forall|j: int| 0 <= j < name.len() implies s[at + 1 + j] == name[j] by {
        assert(s[at + 1 + j] == text[1 + j]);
    }
    assert(s[at + 1 + name.len()] == '}') by {
        assert(s[at + 1 + name.len()] == text[1 + name.len() as int]);
    }
    lemma_name_end_is(s, at + 1, at + 1 + name.len());
    assert(s.subrange(at + 1, at + 1 + name.len()) =~= name);
}

/// Where a run of name characters ends before a character that is none, the
/// run that starts at `i` ends there.
pub proof fn lemma_name_end_is(s: Seq<char>, i: int, e: int)
    requires
        0 <= i <= e < s.len(),
        forall|j: int| i <= j < e ==> is_name_char(#[trigger] s[j]),
        !is_name_char(s[e]),
    ensures
        name_end(s, i) == e,
    decreases e - i,
{
    if i < e {
        lemma_name_end_is(s, i + 1, e);
    }
}

/// The invariant of a pattern holds of what the compiler makes: re-joining the
/// components of a compiled pattern gives back the pattern string.
pub proof fn lemma_compile_wf(s: Seq<char>)
    ensures
        compiled(s).wf(),
{
    lemma_tokens_from(s, 0, 0);
    assert(s.subrange(0, s.len() as int) =~= s);
}

/// Whether `c` may start a variable name.
pub fn is_name_start_exec(c: char) -> (b: bool)
    ensures
        b == is_name_start(c),
{
    ('a' <= c && c <= 'z') || ('A' <= c && c <= 'Z') || c == '_'
}

/// Whether `c` may stand in a variable name.
pub fn is_name_char_exec(c: char) -> (b: bool)
    ensures
        b == is_name_char(c),
{
    is_name_start_exec(c) || ('0' <= c && c <= '9')
}

/// Where the `{name}` span that opens at `i` ends, if one opens there.
pub fn span_end_exec(s: &[char], i: usize) -> (r: Option<usize>)
    requires
        i < s@.len(),
    ensures
        r matches Some(e) ==> span_end(s@, i as int) == Some(e as int) && i + 3 <= e <= s@.len(),
        r is None ==> span_end(s@, i as int) is None,
{
    if s[i] != '{' || s.len() - i < 2 || !is_name_start_exec(s[i + 1]) {
        return None;
    }
    let mut e: usize = i + 1;
    while e < s.len() && is_name_char_exec(s[e])
        invariant
            i + 1 <= e <= s@.len(),
            i + 1 < s@.len(),
            is_name_char(s@[i + 1]),
            name_end(s@, i + 1) == name_end(s@, e as int),
        decreases s@.len() - e,
    {
        e += 1;
    }
    if e < s.len() && s[e] == '}' {
        Some(e + 1)
    } else {
        None
    }
}

impl ResourcePattern {
    /// Create a new resource pattern
    pub fn new(pattern: String, components: Vec<ResourcePatternComponent>) -> (out: Self)
        ensures
            out.pattern == pattern,
            out.components == components,
    {
        Self { pattern, components }
    }

    /// A copy of this pattern.
    pub fn duplicate(&self) -> (out: Self)
        ensures
            out@ == self@,
    {
        let mut components: Vec<ResourcePatternComponent> = Vec::new();
        let mut k: usize = 0;
        while k < self.components.len()
            invariant
                k <= self.components@.len(),
                components@.len() == k,
                forall|j: int| 0 <= j < k ==> (#[trigger] components@[j])@ == self.components@[j]@,
            decreases self.components@.len() - k,
        {
            let copy = match &self.components[k] {
                ResourcePatternComponent::Literal(text) => ResourcePatternComponent::Literal(
                    text.clone(),
                ),
                ResourcePatternComponent::Variable(name) => ResourcePatternComponent::Variable(
                    name.clone(),
                ),
            };
            components.push(copy);
            k += 1;
        }
        proof {
            assert(components.deep_view() =~= self.components.deep_view());
        }
        ResourcePattern { pattern: self.pattern.clone(), components }
    }

    /// Compile a pattern string into its components.
    pub fn compile(pattern: &str) -> (out: Self)
        ensures
            out@ == compiled(pattern@),
            out@.wf(),
    {
        let s = chars_of(pattern);
        let mut components: Vec<ResourcePatternComponent> = Vec::new();
        let mut lit: usize = 0;
        let mut i: usize = 0;
        while i < s.len()
            invariant
                lit <= i <= s@.len(),
                compile_spec(s@) == components.deep_view() + tokens_from(s@, lit as int, i as int),
            decreases s@.len() - i,
        {
            match span_end_exec(s.as_slice(), i) {
                Some(e) => {
                    let ghost before = components.deep_view();
                    let ghost mid = before + literal_piece(s@, lit as int, i as int);
                    if lit < i {
                        let text = string_of(s.as_slice(), lit, i);
                        components.push(ResourcePatternComponent::Literal(text));
                    }
                    assert(components.deep_view() =~= mid);
                    let name = string_of(s.as_slice(), i + 1, e - 1);
                    components.push(ResourcePatternComponent::Variable(name));
                    proof {
                        assert(components.deep_view() =~= mid.push(
                            ComponentModel::Variable(s@.subrange(i + 1, e - 1)),
                        ));
                        assert(before + (literal_piece(s@, lit as int, i as int)
                            + seq![ComponentModel::Variable(s@.subrange(i + 1, e - 1))]
                            + tokens_from(s@, e as int, e as int)) =~= components.deep_view()
                            + tokens_from(s@, e as int, e as int));
                    }
                    lit = e;
                    i = e;
                },
                None => {
                    i += 1;
                },
            }
        }
        let ghost before = components.deep_view();
        if lit < s.len() {
            let text = string_of(s.as_slice(), lit, s.len());
            components.push(ResourcePatternComponent::Literal(text));
        }
        proof {
            assert(components.deep_view() =~= before + literal_piece(
                s@,
                lit as int,
                s@.len() as int,
            ));
            lemma_compile_wf(s@);
        }
        ResourcePattern { pattern: pattern.to_owned(), components }
    }

    /// Get all variable names in this pattern
    pub fn variables(&self) -> (out: Vec<&str>)
        ensures
            out.deep_view() == variable_names(self@.components),
    {
        let mut out: Vec<&str> = Vec::new();
        let mut k: usize = 0;
        while k < self.components.len()
            invariant
                k <= self.components@.len(),
                out.deep_view() == variable_names_upto(self@.components, k as int),
            decreases self.components@.len() - k,
        {
            let ghost before = out.deep_view();
            match &self.components[k] {
                ResourcePatternComponent::Variable(name) => {
                    out.push(name.as_str());
                    proof {
                        assert(out.deep_view() =~= before.push(name@));
                    }
                },
                ResourcePatternComponent::Literal(_) => {},
            }
            proof {
                assert(self@.components[k as int] == self.components@[k as int]@);
            }
            k += 1;
        }
        out
    }

    /// Check if this pattern contains a specific variable
    pub fn has_variable(&self, var_name: &str) -> (found: bool)
        ensures
            found == variable_names(self@.components).contains(var_name@),
    {
        let names = self.variables();
        let mut k: usize = 0;
        while k < names.len()
            invariant
                k <= names@.len(),
                names.deep_view() == variable_names(self@.components),
                forall|j: int| 0 <= j < k ==> names.deep_view()[j] != var_name@,
            decreases names@.len() - k,
        {
            if str_eq(names[k], var_name) {
                proof {
                    assert(names.deep_view()[k as int] == var_name@);
                }
                return true;
            }
            k += 1;
        }
        false
    }

    /// Get the number of variables in this pattern
    pub fn variable_count(&self) -> (count: usize)
        ensures
            count == variable_names(self@.components).len(),
    {
        self.variables().len()
    }
}

} // verus!
