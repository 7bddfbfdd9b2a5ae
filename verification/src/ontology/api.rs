//! The authoring ontology: what an agent needs to *write* a program with
//! this toolkit — which constructor to call, what a builder method takes,
//! whether a widget renders as `Widget` or `StatefulWidget` and with which
//! state type, and what an enum's variants are called.
//!
//! The facts live in a catalog of [`ApiType`] entries generated from the
//! source signatures; the lookups here take that catalog as an argument.
use vstd::prelude::*;
use crate::base::chars::{lowercase, str_eq, str_to_chars, string_push_str, to_lowercase};

verus! {

/// How a type participates in rendering.
#[derive(Debug, Clone, PartialEq, Eq)]
pub enum ApiKind {
    /// Renders with `frame.render_widget(widget, area)`.
    Widget,
    /// Renders with `frame.render_stateful_widget(widget, area, &mut state)`,
    /// where the state is the named type.
    StatefulWidget { state: &'static str },
    /// A plain struct: a builder, a state value, a helper.
    Struct,
    /// An enum. Its `variants` are the spellings an author needs.
    Enum,
    /// A trait: its functions are its required and provided methods.
    Trait,
}

/// One public function, with the signature an author has to satisfy.
#[derive(Debug, Clone)]
pub struct ApiFn {
    pub name: &'static str,
    /// The full signature as written, including argument and return types.
    pub signature: &'static str,
    /// `constructor` (no receiver), `builder` (takes `self`), `method`, or
    /// for a trait `required` / `provided`.
    pub role: &'static str,
    /// First line of the doc comment, empty when undocumented.
    pub summary: &'static str,
}

/// A type an author builds a program out of.
#[derive(Debug, Clone)]
pub struct ApiType {
    pub name: &'static str,
    /// The `use` path, e.g. `hawktui::widget::gauge`.
    pub module: &'static str,
    pub kind: ApiKind,
    pub summary: &'static str,
    /// Enum variant names; empty for non-enums.
    pub variants: &'static [&'static str],
    pub functions: &'static [ApiFn],
}

/// The companion state type of a type, when it renders as a stateful
/// widget with a named state.
pub open spec fn state_type_of(t: ApiType) -> Option<&'static str> {
    match t.kind {
        ApiKind::StatefulWidget { state } => if state@.len() > 0 { Some(state) } else { None },
        _ => None,
    }
}

/// Whether a type is rendered into a frame at all.
pub open spec fn is_widget_kind(k: ApiKind) -> bool {
    k is Widget || k is StatefulWidget
}

/// The functions of `fns` whose role is `role`, in order.
pub open spec fn with_role(fns: Seq<ApiFn>, role: Seq<char>) -> Seq<ApiFn>
    decreases fns.len(),
{
    if fns.len() == 0 {
        Seq::empty()
    } else {
        let rest = with_role(fns.drop_last(), role);
        if fns.last().role@ == role { rest.push(fns.last()) } else { rest }
    }
}

/// The functions a sequence of references points to.
pub open spec fn fn_values(s: Seq<&ApiFn>) -> Seq<ApiFn> {
    s.map_values(|f: &ApiFn| *f)
}

/// The types a sequence of references points to.
pub open spec fn type_values(s: Seq<&ApiType>) -> Seq<ApiType> {
    s.map_values(|t: &ApiType| *t)
}

/// The line that renders a type into a frame, if it is a widget.
pub open spec fn render_call_text(t: ApiType) -> Option<Seq<char>> {
    match state_type_of(t) {
        Some(state) => Some(
            "frame.render_stateful_widget("@ + lowercase(t.name@) + ", area, &mut state); // state: "@ + state@,
        ),
        None => if is_widget_kind(t.kind) {
            Some("frame.render_widget("@ + lowercase(t.name@) + ", area);"@)
        } else {
            None
        },
    }
}

/// Whether `q` occurs in `s` as a contiguous run.
pub open spec fn has_substring(s: Seq<char>, q: Seq<char>) -> bool {
    exists|i: int| 0 <= i && i + q.len() <= s.len() && #[trigger] s.subrange(i, i + q.len()) == q
}

/// Whether the lowercase form of `text` contains `q`.
pub open spec fn mentions(text: Seq<char>, q: Seq<char>) -> bool {
    has_substring(lowercase(text), q)
}

/// Whether some entry of `texts` mentions `q`.
pub open spec fn any_mentions(texts: Seq<&str>, q: Seq<char>) -> bool {
    exists|i: int| 0 <= i < texts.len() && #[trigger] mentions(texts[i]@, q)
}

/// Whether some function's name or summary mentions `q`.
pub open spec fn any_fn_mentions(fns: Seq<ApiFn>, q: Seq<char>) -> bool {
    exists|i: int| 0 <= i < fns.len() && (mentions(#[trigger] fns[i].name@, q) || mentions(fns[i].summary@, q))
}

/// Whether a type's name, module, summary, variants or function names or
/// summaries mention the lowercase query `q`.
pub open spec fn type_matches(t: ApiType, q: Seq<char>) -> bool {
    ||| mentions(t.name@, q)
    ||| mentions(t.module@, q)
    ||| mentions(t.summary@, q)
    ||| any_mentions(t.variants@, q)
    ||| any_fn_mentions(t.functions@, q)
}

/// The types of `catalog` matching `q`, in catalog order.
pub open spec fn matching_types(catalog: Seq<ApiType>, q: Seq<char>) -> Seq<ApiType>
    decreases catalog.len(),
{
    if catalog.len() == 0 {
        Seq::empty()
    } else {
        let rest = matching_types(catalog.drop_last(), q);
        if type_matches(catalog.last(), q) { rest.push(catalog.last()) } else { rest }
    }
}

/// The index of the first type named `name`, if any.
pub open spec fn first_named(catalog: Seq<ApiType>, name: Seq<char>) -> Option<int>
    decreases catalog.len(),
{
    if catalog.len() == 0 {
        None
    } else {
        match first_named(catalog.drop_last(), name) {
            Some(i) => Some(i),
            None => if catalog.last().name@ == name { Some(catalog.len() - 1) } else { None },
        }
    }
}

/// The stateful widgets of `catalog` with their state types, in order.
pub open spec fn stateful_pairs(catalog: Seq<ApiType>) -> Seq<(Seq<char>, Seq<char>)>
    decreases catalog.len(),
{
    if catalog.len() == 0 {
        Seq::empty()
    } else {
        let rest = stateful_pairs(catalog.drop_last());
        match state_type_of(catalog.last()) {
            Some(s) => rest.push((catalog.last().name@, s@)),
            None => rest,
        }
    }
}

/// The number of functions described by `catalog`.
pub open spec fn total_functions(catalog: Seq<ApiType>) -> int
    decreases catalog.len(),
{
    if catalog.len() == 0 {
        0
    } else {
        total_functions(catalog.drop_last()) + catalog.last().functions@.len()
    }
}

/// The views of pairs of strings.
pub open spec fn pair_views(s: Seq<(&str, &str)>) -> Seq<(Seq<char>, Seq<char>)> {
    s.map_values(|p: (&str, &str)| (p.0@, p.1@))
}

/// Whether `q` occurs in `s`.
pub fn chars_contain(s: &[char], q: &[char]) -> (r: bool)
    ensures
        r == has_substring(s@, q@),
{
    if q.len() > s.len() {
        return false;
    }
    let last = s.len() - q.len();
    let mut i: usize = 0;
    while i <= last
        invariant
            last == s@.len() - q@.len(),
            q@.len() <= s@.len(),
            s@.len() <= usize::MAX,
            forall|k: int| 0 <= k < i ==> #[trigger] s@.subrange(k, k + q@.len()) != q@,
        decreases last + 1 - i,
    {
        let mut j: usize = 0;
        while j < q.len() && s[i + j] == q[j]
            invariant
                i <= last,
                last == s@.len() - q@.len(),
                q@.len() <= s@.len(),
                s@.len() <= usize::MAX,
                j <= q@.len(),
                forall|m: int| 0 <= m < j ==> s@[i + m] == #[trigger] q@[m],
            decreases q@.len() - j,
        {
            j = j + 1;
        }
        if j == q.len() {
            assert(s@.subrange(i as int, i + q@.len()) =~= q@);
            return true;
        }
        assert(s@.subrange(i as int, i + q@.len())[j as int] != q@[j as int]);
        i = i + 1;
    }
    proof {
        assert forall|k: int| 0 <= k && k + q@.len() <= s@.len() implies #[trigger] s@.subrange(k, k + q@.len()) != q@ by {
            assert(k < i);
        }
    }
    false
}

/// Whether the lowercase form of `text` contains `q`.
pub(crate) fn text_mentions(text: &str, q: &[char]) -> (r: bool)
    ensures
        r == mentions(text@, q@),
{
    let lower = to_lowercase(text);
    let cs = str_to_chars(lower.as_str());
    chars_contain(cs.as_slice(), q)
}

/// The functions of `fns` whose role is `role`, in order.
pub(crate) fn functions_with_role<'a>(fns: &'a [ApiFn], role: &str) -> (r: Vec<&'a ApiFn>)
    ensures
        fn_values(r@) == with_role(fns@, role@),
{
    let mut out: Vec<&'a ApiFn> = Vec::new();
    let mut i: usize = 0;
    while i < fns.len()
        invariant
            i <= fns@.len(),
            fn_values(out@) == with_role(fns@.take(i as int), role@),
        decreases fns@.len() - i,
    {
        assert(fns@.take(i + 1).drop_last() =~= fns@.take(i as int));
        let f = &fns[i];
        if str_eq(f.role, role) {
            out.push(f);
        }
        assert(fn_values(out@) =~= with_role(fns@.take(i + 1), role@));
        i = i + 1;
    }
    assert(fns@.take(fns@.len() as int) =~= fns@);
    out
}

impl ApiType {
    /// The companion state type, when this renders as a `StatefulWidget`.
    ///
    /// Getting this wrong is the single most common mistake when writing
    /// against this framework, so it is a first-class field rather than
    /// something to infer.
    pub fn state_type(&self) -> (r: Option<&'static str>)
        ensures
            r == state_type_of(*self),
    {
        match &self.kind {
            ApiKind::StatefulWidget { state } => {
                if !state.is_empty() {
                    Some(*state)
                } else {
                    None
                }
            },
            _ => None,
        }
    }

    /// Whether this type is rendered into a frame at all.
    pub fn is_widget(&self) -> (r: bool)
        ensures
            r == is_widget_kind(self.kind),
    {
        match self.kind {
            ApiKind::Widget | ApiKind::StatefulWidget { .. } => true,
            _ => false,
        }
    }

    /// Functions with no receiver — how you get one of these.
    pub fn constructors(&self) -> (r: Vec<&ApiFn>)
        ensures
            fn_values(r@) == with_role(self.functions@, "constructor"@),
    {
        functions_with_role(self.functions, "constructor")
    }

    /// Functions taking `self` — the chainable configuration.
    pub fn builders(&self) -> (r: Vec<&ApiFn>)
        ensures
            fn_values(r@) == with_role(self.functions@, "builder"@),
    {
        functions_with_role(self.functions, "builder")
    }

    /// Functions taking `&self` or `&mut self`.
    pub fn methods(&self) -> (r: Vec<&ApiFn>)
        ensures
            fn_values(r@) == with_role(self.functions@, "method"@),
    {
        functions_with_role(self.functions, "method")
    }

    /// The line to render this into a frame, or `None` if it is not a
    /// widget.
    pub fn render_call(&self) -> (r: Option<String>)
        ensures
            match r {
                Some(s) => render_call_text(*self) == Some(s@),
                None => render_call_text(*self) is None,
            },
    {
        match self.state_type() {
            Some(state) => {
                let mut out = String::new();
                string_push_str(&mut out, "frame.render_stateful_widget(");
                let lower = to_lowercase(self.name);
                string_push_str(&mut out, lower.as_str());
                string_push_str(&mut out, ", area, &mut state); // state: ");
                string_push_str(&mut out, state);
                Some(out)
            },
            None => {
                if self.is_widget() {
                    let mut out = String::new();
                    string_push_str(&mut out, "frame.render_widget(");
                    let lower = to_lowercase(self.name);
                    string_push_str(&mut out, lower.as_str());
                    string_push_str(&mut out, ", area);");
                    Some(out)
                } else {
                    None
                }
            },
        }
    }
}

/// Look a type up by exact name.
pub fn get<'a>(catalog: &'a [ApiType], name: &str) -> (r: Option<&'a ApiType>)
    ensures
        match first_named(catalog@, name@) {
            Some(i) => r == Some(&catalog@[i]),
            None => r is None,
        },
{
    let mut i: usize = 0;
    while i < catalog.len()
        invariant
            i <= catalog@.len(),
            first_named(catalog@.take(i as int), name@) is None,
        decreases catalog@.len() - i,
    {
        assert(catalog@.take(i + 1).drop_last() =~= catalog@.take(i as int));
        if str_eq(catalog[i].name, name) {
            proof {
                lemma_first_named_prefix(catalog@, name@, i + 1);
            }
            return Some(&catalog[i]);
        }
        i = i + 1;
    }
    assert(catalog@.take(catalog@.len() as int) =~= catalog@);
    None
}

/// A match found in a prefix is the first match of the whole catalog.
proof fn lemma_first_named_prefix(catalog: Seq<ApiType>, name: Seq<char>, n: int)
    requires
        0 <= n <= catalog.len(),
        first_named(catalog.take(n), name) is Some,
    ensures
        first_named(catalog, name) == first_named(catalog.take(n), name),
    decreases catalog.len() - n,
{
    if n < catalog.len() {
        assert(catalog.take(n + 1).drop_last() =~= catalog.take(n));
        lemma_first_named_prefix(catalog, name, n + 1);
    } else {
        assert(catalog.take(n) =~= catalog);
    }
}

/// Whether any of `texts` mentions `q`.
fn any_text_mentions(texts: &[&str], q: &[char]) -> (r: bool)
    ensures
        r == any_mentions(texts@, q@),
{
    let mut i: usize = 0;
    while i < texts.len()
        invariant
            i <= texts@.len(),
            forall|k: int| 0 <= k < i ==> !mentions(#[trigger] texts@[k]@, q@),
        decreases texts@.len() - i,
    {
        if text_mentions(texts[i], q) {
            return true;
        }
        i = i + 1;
    }
    false
}

/// Whether any function's name or summary mentions `q`.
fn any_function_mentions(fns: &[ApiFn], q: &[char]) -> (r: bool)
    ensures
        r == any_fn_mentions(fns@, q@),
{
    let mut i: usize = 0;
    while i < fns.len()
        invariant
            i <= fns@.len(),
            forall|k: int| 0 <= k < i ==> !mentions(#[trigger] fns@[k].name@, q@) && !mentions(fns@[k].summary@, q@),
        decreases fns@.len() - i,
    {
        let by_name = text_mentions(fns[i].name, q);
        let by_summary = text_mentions(fns[i].summary, q);
        assert(by_name == mentions(fns@[i as int].name@, q@));
        assert(by_summary == mentions(fns@[i as int].summary@, q@));
        if by_name || by_summary {
            return true;
        }
        i = i + 1;
    }
    false
}

/// Whether a type matches the lowercase query `q`.
fn matches_query(t: &ApiType, q: &[char]) -> (r: bool)
    ensures
        r == type_matches(*t, q@),
{
    text_mentions(t.name, q) || text_mentions(t.module, q) || text_mentions(t.summary, q)
        || any_text_mentions(t.variants, q) || any_function_mentions(t.functions, q)
}

/// Types whose name, module, summary, variants or function names mention
/// the query, case-insensitively.
pub fn search<'a>(catalog: &'a [ApiType], query: &str) -> (r: Vec<&'a ApiType>)
    ensures
        type_values(r@) == matching_types(catalog@, lowercase(query@)),
{
    let lower = to_lowercase(query);
    let q = str_to_chars(lower.as_str());
    let mut out: Vec<&'a ApiType> = Vec::new();
    let mut i: usize = 0;
    while i < catalog.len()
        invariant
            i <= catalog@.len(),
            q@ == lowercase(query@),
            type_values(out@) == matching_types(catalog@.take(i as int), q@),
        decreases catalog@.len() - i,
    {
        assert(catalog@.take(i + 1).drop_last() =~= catalog@.take(i as int));
        let t = &catalog[i];
        if matches_query(t, q.as_slice()) {
            out.push(t);
        }
        assert(type_values(out@) =~= matching_types(catalog@.take(i + 1), q@));
        i = i + 1;
    }
    assert(catalog@.take(catalog@.len() as int) =~= catalog@);
    out
}

/// Every widget that needs a companion state value, with that state's
/// name.
pub fn stateful_widgets(catalog: &[ApiType]) -> (r: Vec<(&'static str, &'static str)>)
    ensures
        pair_views(r@) == stateful_pairs(catalog@),
{
    let mut out: Vec<(&'static str, &'static str)> = Vec::new();
    let mut i: usize = 0;
    while i < catalog.len()
        invariant
            i <= catalog@.len(),
            pair_views(out@) == stateful_pairs(catalog@.take(i as int)),
        decreases catalog@.len() - i,
    {
        assert(catalog@.take(i + 1).drop_last() =~= catalog@.take(i as int));
        match catalog[i].state_type() {
            Some(s) => out.push((catalog[i].name, s)),
            None => {},
        }
        assert(pair_views(out@) =~= stateful_pairs(catalog@.take(i + 1)));
        i = i + 1;
    }
    assert(catalog@.take(catalog@.len() as int) =~= catalog@);
    out
}

/// How many public functions the catalog describes.
pub fn function_count(catalog: &[ApiType]) -> (r: usize)
    requires
        total_functions(catalog@) <= usize::MAX,
    ensures
        r == total_functions(catalog@),
{
    let mut total: usize = 0;
    let mut i: usize = 0;
    while i < catalog.len()
        invariant
            i <= catalog@.len(),
            total == total_functions(catalog@.take(i as int)),
            total_functions(catalog@) <= usize::MAX,
        decreases catalog@.len() - i,
    {
        assert(catalog@.take(i + 1).drop_last() =~= catalog@.take(i as int));
        proof {
            lemma_total_prefix(catalog@, i + 1);
        }
        total = total + catalog[i].functions.len();
        i = i + 1;
    }
    assert(catalog@.take(catalog@.len() as int) =~= catalog@);
    total
}

/// The count over a prefix never exceeds the count over the whole.
proof fn lemma_total_prefix(catalog: Seq<ApiType>, n: int)
    requires
        0 <= n <= catalog.len(),
    ensures
        total_functions(catalog.take(n)) <= total_functions(catalog),
    decreases catalog.len() - n,
{
    if n < catalog.len() {
        assert(catalog.take(n + 1).drop_last() =~= catalog.take(n));
        lemma_total_prefix(catalog, n + 1);
    } else {
        assert(catalog.take(n) =~= catalog);
    }
}

} // verus!
