//! Human- and agent-readable renderings of the authoring catalog.
//!
//! These return `String` rather than printing, so they can be tested,
//! embedded in a document, or served over a protocol.
use vstd::prelude::*;
use super::api::{
    fn_values, functions_with_role, get, matching_types, pair_views, render_call_text, search, stateful_pairs, type_values,
    with_role, ApiFn, ApiKind, ApiType, first_named, stateful_widgets,
};
use crate::base::chars::{lowercase, str_to_chars, string_push, string_push_str};

verus! {

/// Lexicographic order on character sequences, by code point (which is
/// the byte order of their UTF-8 encodings).
pub open spec fn chars_lt(a: Seq<char>, b: Seq<char>) -> bool
    decreases a.len(),
{
    if a.len() == 0 {
        b.len() > 0
    } else if b.len() == 0 {
        false
    } else if a[0] != b[0] {
        (a[0] as u32) < (b[0] as u32)
    } else {
        chars_lt(a.drop_first(), b.drop_first())
    }
}

/// Where a stable insertion puts key `k` among the sorted `keys`: before
/// the first greater key, or at the end.
pub open spec fn insert_pos(keys: Seq<Seq<char>>, k: Seq<char>) -> int
    decreases keys.len(),
{
    if keys.len() == 0 {
        0
    } else if chars_lt(k, keys[0]) {
        0
    } else {
        1 + insert_pos(keys.drop_first(), k)
    }
}

/// The names of functions.
pub open spec fn fn_names(s: Seq<ApiFn>) -> Seq<Seq<char>> {
    s.map_values(|f: ApiFn| f.name@)
}

/// The names of types.
pub open spec fn type_names(s: Seq<ApiType>) -> Seq<Seq<char>> {
    s.map_values(|t: ApiType| t.name@)
}

/// Functions sorted by name, stably.
pub open spec fn sort_fns(s: Seq<ApiFn>) -> Seq<ApiFn>
    decreases s.len(),
{
    if s.len() == 0 {
        s
    } else {
        let prev = sort_fns(s.drop_last());
        prev.insert(insert_pos(fn_names(prev), s.last().name@), s.last())
    }
}

/// Types sorted by name, stably.
pub open spec fn sort_types(s: Seq<ApiType>) -> Seq<ApiType>
    decreases s.len(),
{
    if s.len() == 0 {
        s
    } else {
        let prev = sort_types(s.drop_last());
        prev.insert(insert_pos(type_names(prev), s.last().name@), s.last())
    }
}

/// `s` padded with spaces on the right to `width` characters, as the `<`
/// alignment of `format!` does.
pub open spec fn padded(s: Seq<char>, width: int) -> Seq<char> {
    if s.len() < width {
        s + Seq::new((width - s.len()) as nat, |i: int| ' ')
    } else {
        s
    }
}

/// The items joined by `, `.
pub open spec fn joined(items: Seq<&str>) -> Seq<char>
    decreases items.len(),
{
    if items.len() == 0 {
        Seq::empty()
    } else if items.len() == 1 {
        items[0]@
    } else {
        joined(items.drop_last()) + ", "@ + items.last()@
    }
}

/// How a type renders, in words.
pub open spec fn kind_text(k: ApiKind) -> Seq<char> {
    match k {
        ApiKind::Widget => "widget"@,
        ApiKind::StatefulWidget { state } => "stateful widget (state: "@ + state@ + ")"@,
        ApiKind::Enum => "enum"@,
        ApiKind::Trait => "trait"@,
        ApiKind::Struct => "struct"@,
    }
}

/// How a type renders, in short.
pub open spec fn shape_text(k: ApiKind) -> Seq<char> {
    match k {
        ApiKind::Widget => "widget"@,
        ApiKind::StatefulWidget { state } => "stateful/"@ + state@,
        ApiKind::Enum => "enum"@,
        ApiKind::Trait => "trait"@,
        ApiKind::Struct => "struct"@,
    }
}

/// The lines for a list of functions: the signature, then the summary
/// indented below it when there is one.
pub open spec fn fn_lines(fns: Seq<ApiFn>) -> Seq<char>
    decreases fns.len(),
{
    if fns.len() == 0 {
        Seq::empty()
    } else {
        let f = fns.last();
        fn_lines(fns.drop_last()) + "  "@ + f.signature@ + "\n"@ + if f.summary@.len() > 0 {
            "      "@ + f.summary@ + "\n"@
        } else {
            Seq::empty()
        }
    }
}

/// A labelled group of functions, sorted by name; nothing when empty.
pub open spec fn group_text(label: Seq<char>, fns: Seq<ApiFn>) -> Seq<char> {
    if fns.len() == 0 {
        Seq::empty()
    } else {
        "\n"@ + label + ":\n"@ + fn_lines(sort_fns(fns))
    }
}

/// The heading of a type's authoring view: name and kind, import line,
/// summary and variants.
pub open spec fn head_text(t: ApiType) -> Seq<char> {
    t.name@ + " — "@ + kind_text(t.kind) + "\n"@ + "use "@ + t.module@ + "::"@ + t.name@ + ";\n"@
        + (if t.summary@.len() > 0 { t.summary@ + "\n"@ } else { Seq::empty() })
        + (if t.variants@.len() > 0 { "\nvariants: "@ + joined(t.variants@) + "\n"@ } else { Seq::empty() })
}

/// A type's functions, grouped by role, each group sorted by name.
pub open spec fn groups_text(t: ApiType) -> Seq<char> {
    let fns = t.functions@;
    group_text("required methods"@, with_role(fns, "required"@))
        + group_text("provided methods"@, with_role(fns, "provided"@))
        + group_text("constructors"@, with_role(fns, "constructor"@))
        + group_text("builders"@, with_role(fns, "builder"@))
        + group_text("methods"@, with_role(fns, "method"@))
}

/// The authoring view of one type: heading, function groups, and the line
/// that renders it when it is a widget.
pub open spec fn api_text(t: ApiType) -> Seq<char> {
    head_text(t) + groups_text(t) + match render_call_text(t) {
        Some(call) => "\nrender:\n  "@ + call + "\n"@,
        None => Seq::empty(),
    }
}

/// One line per type: name, shape and module, in columns.
pub open spec fn type_lines(types: Seq<ApiType>) -> Seq<char>
    decreases types.len(),
{
    if types.len() == 0 {
        Seq::empty()
    } else {
        let t = types.last();
        type_lines(types.drop_last()) + padded(t.name@, 18) + " "@ + padded(shape_text(t.kind), 20) + " "@
            + t.module@ + "\n"@
    }
}

/// One line per stateful widget: its name and its state type.
pub open spec fn pair_lines(pairs: Seq<(Seq<char>, Seq<char>)>) -> Seq<char>
    decreases pairs.len(),
{
    if pairs.len() == 0 {
        Seq::empty()
    } else {
        pair_lines(pairs.drop_last()) + "  "@ + padded(pairs.last().0, 16) + " "@ + pairs.last().1 + "\n"@
    }
}

/// One indented line per item.
pub open spec fn item_lines(items: Seq<&str>) -> Seq<char>
    decreases items.len(),
{
    if items.len() == 0 {
        Seq::empty()
    } else {
        item_lines(items.drop_last()) + "  "@ + items.last()@ + "\n"@
    }
}

/// Whether `a` sorts before `b`.
pub(crate) fn str_lt(a: &str, b: &str) -> (r: bool)
    ensures
        r == chars_lt(a@, b@),
{
    let x = str_to_chars(a);
    let y = str_to_chars(b);
    assert(x@.skip(0) =~= x@);
    assert(y@.skip(0) =~= y@);
    let mut i: usize = 0;
    while i < x.len() && i < y.len()
        invariant
            x@ == a@,
            y@ == b@,
            i <= x@.len(),
            i <= y@.len(),
            chars_lt(a@, b@) == chars_lt(x@.skip(i as int), y@.skip(i as int)),
        decreases x@.len() - i,
    {
        assert(x@.skip(i as int)[0] == x@[i as int]);
        assert(y@.skip(i as int)[0] == y@[i as int]);
        if x[i] != y[i] {
            return (x[i] as u32) < (y[i] as u32);
        }
        assert(x@.skip(i as int).drop_first() =~= x@.skip(i + 1));
        assert(y@.skip(i as int).drop_first() =~= y@.skip(i + 1));
        i = i + 1;
    }
    assert(x@.skip(i as int).len() == x@.len() - i);
    assert(y@.skip(i as int).len() == y@.len() - i);
    i < y.len()
}

/// `insert_pos` found by a scan: every key before `p` is not greater than
/// `k`, and the key at `p`, if any, is.
pub(crate) proof fn lemma_insert_pos(keys: Seq<Seq<char>>, k: Seq<char>, p: int)
    requires
        0 <= p <= keys.len(),
        forall|j: int| 0 <= j < p ==> !chars_lt(k, #[trigger] keys[j]),
        p == keys.len() || chars_lt(k, keys[p]),
    ensures
        insert_pos(keys, k) == p,
    decreases p,
{
    if p > 0 {
        let rest = keys.drop_first();
        assert forall|j: int| 0 <= j < p - 1 implies !chars_lt(k, #[trigger] rest[j]) by {
            assert(rest[j] == keys[j + 1]);
        }
        if p < keys.len() {
            assert(rest[p - 1] == keys[p]);
        }
        lemma_insert_pos(rest, k, p - 1);
    }
}

/// The functions sorted by name, stably.
fn sort_fns_by_name<'a>(v: &Vec<&'a ApiFn>) -> (r: Vec<&'a ApiFn>)
    ensures
        fn_values(r@) == sort_fns(fn_values(v@)),
{
    let mut out: Vec<&'a ApiFn> = Vec::new();
    let mut i: usize = 0;
    while i < v.len()
        invariant
            i <= v@.len(),
            fn_values(out@) == sort_fns(fn_values(v@).take(i as int)),
        decreases v@.len() - i,
    {
        let f = v[i];
        let ghost keys = fn_names(fn_values(out@));
        let mut p: usize = 0;
        while p < out.len()
            invariant
                p <= out@.len(),
                keys == fn_names(fn_values(out@)),
                forall|j: int| 0 <= j < p ==> !chars_lt(f.name@, #[trigger] keys[j]),
            ensures
                p <= out@.len(),
                forall|j: int| 0 <= j < p ==> !chars_lt(f.name@, #[trigger] keys[j]),
                p == out@.len() || chars_lt(f.name@, keys[p as int]),
            decreases out@.len() - p,
        {
            assert(keys[p as int] == out@[p as int].name@);
            if str_lt(f.name, out[p].name) {
                break;
            }
            p = p + 1;
        }
        proof {
            lemma_insert_pos(keys, f.name@, p as int);
            assert(fn_values(v@).take(i + 1).drop_last() =~= fn_values(v@).take(i as int));
        }
        let ghost before = out@;
        out.insert(p, f);
        assert(fn_values(out@) =~= fn_values(before).insert(p as int, *f));
        i = i + 1;
    }
    assert(fn_values(v@).take(v@.len() as int) =~= fn_values(v@));
    out
}

/// The types sorted by name, stably.
fn sort_types_by_name<'a>(v: &Vec<&'a ApiType>) -> (r: Vec<&'a ApiType>)
    ensures
        type_values(r@) == sort_types(type_values(v@)),
{
    let mut out: Vec<&'a ApiType> = Vec::new();
    let mut i: usize = 0;
    while i < v.len()
        invariant
            i <= v@.len(),
            type_values(out@) == sort_types(type_values(v@).take(i as int)),
        decreases v@.len() - i,
    {
        let t = v[i];
        let ghost keys = type_names(type_values(out@));
        let mut p: usize = 0;
        while p < out.len()
            invariant
                p <= out@.len(),
                keys == type_names(type_values(out@)),
                forall|j: int| 0 <= j < p ==> !chars_lt(t.name@, #[trigger] keys[j]),
            ensures
                p <= out@.len(),
                forall|j: int| 0 <= j < p ==> !chars_lt(t.name@, #[trigger] keys[j]),
                p == out@.len() || chars_lt(t.name@, keys[p as int]),
            decreases out@.len() - p,
        {
            assert(keys[p as int] == out@[p as int].name@);
            if str_lt(t.name, out[p].name) {
                break;
            }
            p = p + 1;
        }
        proof {
            lemma_insert_pos(keys, t.name@, p as int);
            assert(type_values(v@).take(i + 1).drop_last() =~= type_values(v@).take(i as int));
        }
        let ghost before = out@;
        out.insert(p, t);
        assert(type_values(out@) =~= type_values(before).insert(p as int, *t));
        i = i + 1;
    }
    assert(type_values(v@).take(v@.len() as int) =~= type_values(v@));
    out
}

/// Append `s` padded with spaces to `width` characters.
pub(crate) fn push_padded(out: &mut String, s: &str, width: usize)
    ensures
        final(out)@ == old(out)@ + padded(s@, width as int),
{
    string_push_str(out, s);
    let n = str_to_chars(s).len();
    let mut k: usize = n;
    while k < width
        invariant
            n == s@.len(),
            n <= k,
            k <= width || k == n,
            out@ == old(out)@ + s@ + Seq::new((k - n) as nat, |i: int| ' '),
        decreases width - k,
    {
        string_push(out, ' ');
        assert(Seq::new((k - n) as nat, |i: int| ' ').push(' ') =~= Seq::new((k + 1 - n) as nat, |i: int| ' '));
        k = k + 1;
    }
    if n < width {
        assert(k == width);
    } else {
        assert(Seq::new((k - n) as nat, |i: int| ' ') =~= Seq::<char>::empty());
    }
    assert(final(out)@ =~= old(out)@ + padded(s@, width as int));
}

/// Append `items` joined by `, `.
fn push_joined(out: &mut String, items: &[&str])
    ensures
        final(out)@ == old(out)@ + joined(items@),
{
    let mut i: usize = 0;
    while i < items.len()
        invariant
            i <= items@.len(),
            out@ == old(out)@ + joined(items@.take(i as int)),
        decreases items@.len() - i,
    {
        assert(items@.take(i + 1).drop_last() =~= items@.take(i as int));
        if i > 0 {
            string_push_str(out, ", ");
        }
        string_push_str(out, items[i]);
        assert(out@ =~= old(out)@ + joined(items@.take(i + 1)));
        i = i + 1;
    }
    assert(items@.take(items@.len() as int) =~= items@);
}

/// Append a labelled, name-sorted group of functions, or nothing when the
/// group is empty.
fn push_group(out: &mut String, label: &str, fns: &Vec<&ApiFn>)
    ensures
        final(out)@ == old(out)@ + group_text(label@, fn_values(fns@)),
{
    if fns.len() == 0 {
        assert(final(out)@ =~= old(out)@ + group_text(label@, fn_values(fns@)));
        return;
    }
    string_push_str(out, "\n");
    string_push_str(out, label);
    string_push_str(out, ":\n");
    let sorted = sort_fns_by_name(fns);
    let ghost start = out@;
    let mut i: usize = 0;
    while i < sorted.len()
        invariant
            i <= sorted@.len(),
            out@ == start + fn_lines(fn_values(sorted@).take(i as int)),
        decreases sorted@.len() - i,
    {
        assert(fn_values(sorted@).take(i + 1).drop_last() =~= fn_values(sorted@).take(i as int));
        let f = sorted[i];
        string_push_str(out, "  ");
        string_push_str(out, f.signature);
        string_push_str(out, "\n");
        if !f.summary.is_empty() {
            string_push_str(out, "      ");
            string_push_str(out, f.summary);
            string_push_str(out, "\n");
        }
        assert(out@ =~= start + fn_lines(fn_values(sorted@).take(i + 1)));
        i = i + 1;
    }
    assert(fn_values(sorted@).take(sorted@.len() as int) =~= fn_values(sorted@));
    assert(final(out)@ =~= old(out)@ + group_text(label@, fn_values(fns@)));
}

/// Append how a type renders, in words.
fn push_kind(out: &mut String, k: &ApiKind)
    ensures
        final(out)@ == old(out)@ + kind_text(*k),
{
    match k {
        ApiKind::Widget => string_push_str(out, "widget"),
        ApiKind::StatefulWidget { state } => {
            string_push_str(out, "stateful widget (state: ");
            string_push_str(out, state);
            string_push_str(out, ")");
        },
        ApiKind::Enum => string_push_str(out, "enum"),
        ApiKind::Trait => string_push_str(out, "trait"),
        ApiKind::Struct => string_push_str(out, "struct"),
    }
    assert(final(out)@ =~= old(out)@ + kind_text(*k));
}

/// How a type renders, in short.
fn shape_of(k: &ApiKind) -> (r: String)
    ensures
        r@ == shape_text(*k),
{
    let mut out = String::new();
    match k {
        ApiKind::Widget => string_push_str(&mut out, "widget"),
        ApiKind::StatefulWidget { state } => {
            string_push_str(&mut out, "stateful/");
            string_push_str(&mut out, state);
        },
        ApiKind::Enum => string_push_str(&mut out, "enum"),
        ApiKind::Trait => string_push_str(&mut out, "trait"),
        ApiKind::Struct => string_push_str(&mut out, "struct"),
    }
    assert(out@ =~= shape_text(*k));
    out
}

/// Append the heading of a type's authoring view.
fn push_head(out: &mut String, ty: &ApiType)
    ensures
        final(out)@ == old(out)@ + head_text(*ty),
{
    string_push_str(out, ty.name);
    string_push_str(out, " — ");
    push_kind(out, &ty.kind);
    string_push_str(out, "\n");
    string_push_str(out, "use ");
    string_push_str(out, ty.module);
    string_push_str(out, "::");
    string_push_str(out, ty.name);
    string_push_str(out, ";\n");
    let ghost mid = out@;
    if !ty.summary.is_empty() {
        string_push_str(out, ty.summary);
        string_push_str(out, "\n");
    }
    let ghost mid2 = out@;
    if ty.variants.len() > 0 {
        string_push_str(out, "\nvariants: ");
        push_joined(out, ty.variants);
        string_push_str(out, "\n");
    }
    assert(final(out)@ =~= old(out)@ + head_text(*ty));
}

/// Append a type's functions, grouped by role.
#[verifier::rlimit(40)]
fn push_groups(out: &mut String, ty: &ApiType)
    ensures
        final(out)@ == old(out)@ + groups_text(*ty),
{
    let required = functions_with_role(ty.functions, "required");
    push_group(out, "required methods", &required);
    let provided = functions_with_role(ty.functions, "provided");
    push_group(out, "provided methods", &provided);
    let constructors = ty.constructors();
    push_group(out, "constructors", &constructors);
    let builders = ty.builders();
    push_group(out, "builders", &builders);
    let methods = ty.methods();
    push_group(out, "methods", &methods);
    assert(final(out)@ =~= old(out)@ + groups_text(*ty));
}

/// The authoring view of one type: how to construct it, what to chain onto
/// it, and — for a widget — the exact line that renders it. `None` when
/// the catalog has no type of that name.
pub fn api(catalog: &[ApiType], name: &str) -> (r: Option<String>)
    ensures
        match first_named(catalog@, name@) {
            Some(i) => r is Some && r->0@ == api_text(catalog@[i]),
            None => r is None,
        },
{
    let ty = match get(catalog, name) {
        Some(t) => t,
        None => return None,
    };
    let mut out = String::new();
    push_head(&mut out, ty);
    push_groups(&mut out, ty);
    let ghost body = out@;
    match ty.render_call() {
        Some(call) => {
            string_push_str(&mut out, "\nrender:\n  ");
            string_push_str(&mut out, call.as_str());
            string_push_str(&mut out, "\n");
        },
        None => {},
    }
    assert(out@ =~= api_text(*ty));
    Some(out)
}

/// Types matching a query, sorted by name, with the shape of each, for
/// finding the right one.
pub fn api_search(catalog: &[ApiType], query: &str) -> (r: String)
    ensures
        r@ == type_lines(sort_types(matching_types(catalog@, lowercase(query@)))),
{
    let hits = search(catalog, query);
    let sorted = sort_types_by_name(&hits);
    let mut out = String::new();
    let mut i: usize = 0;
    while i < sorted.len()
        invariant
            i <= sorted@.len(),
            out@ == type_lines(type_values(sorted@).take(i as int)),
        decreases sorted@.len() - i,
    {
        assert(type_values(sorted@).take(i + 1).drop_last() =~= type_values(sorted@).take(i as int));
        let t = sorted[i];
        push_padded(&mut out, t.name, 18);
        string_push_str(&mut out, " ");
        let shape = shape_of(&t.kind);
        push_padded(&mut out, shape.as_str(), 20);
        string_push_str(&mut out, " ");
        string_push_str(&mut out, t.module);
        string_push_str(&mut out, "\n");
        assert(out@ =~= type_lines(type_values(sorted@).take(i + 1)));
        i = i + 1;
    }
    assert(type_values(sorted@).take(sorted@.len() as int) =~= type_values(sorted@));
    out
}

/// Every widget that needs a companion state value.
pub fn stateful(catalog: &[ApiType]) -> (r: String)
    ensures
        r@ == "widget -> state type (render_stateful_widget)\n"@ + pair_lines(stateful_pairs(catalog@)),
{
    let mut out = String::new();
    string_push_str(&mut out, "widget -> state type (render_stateful_widget)\n");
    let ghost head = out@;
    let pairs = stateful_widgets(catalog);
    let mut i: usize = 0;
    while i < pairs.len()
        invariant
            i <= pairs@.len(),
            out@ == head + pair_lines(pair_views(pairs@).take(i as int)),
        decreases pairs@.len() - i,
    {
        assert(pair_views(pairs@).take(i + 1).drop_last() =~= pair_views(pairs@).take(i as int));
        let (widget, state) = pairs[i];
        string_push_str(&mut out, "  ");
        push_padded(&mut out, widget, 16);
        string_push_str(&mut out, " ");
        string_push_str(&mut out, state);
        string_push_str(&mut out, "\n");
        assert(out@ =~= head + pair_lines(pair_views(pairs@).take(i + 1)));
        i = i + 1;
    }
    assert(pair_views(pairs@).take(pairs@.len() as int) =~= pair_views(pairs@));
    out
}

/// What the prelude brings into scope, given its items, one per line
/// under a note on what it leaves out.
pub fn prelude(items: &[&str]) -> (r: String)
    ensures
        r@ == "use hawktui::prelude::*; brings these into scope.\n         Program, Model, Command and ProgramOptions are NOT included; import          them from hawktui::runtime.\n\n"@
            + item_lines(items@),
{
    let mut out = String::new();
    string_push_str(
        &mut out,
        "use hawktui::prelude::*; brings these into scope.\n         Program, Model, Command and ProgramOptions are NOT included; import          them from hawktui::runtime.\n\n",
    );
    let ghost head = out@;
    let mut i: usize = 0;
    while i < items.len()
        invariant
            i <= items@.len(),
            out@ == head + item_lines(items@.take(i as int)),
        decreases items@.len() - i,
    {
        assert(items@.take(i + 1).drop_last() =~= items@.take(i as int));
        string_push_str(&mut out, "  ");
        string_push_str(&mut out, items[i]);
        string_push_str(&mut out, "\n");
        assert(out@ =~= head + item_lines(items@.take(i + 1)));
        i = i + 1;
    }
    assert(items@.take(items@.len() as int) =~= items@);
    out
}

/// Keys in non-decreasing order.
pub open spec fn keys_sorted(keys: Seq<Seq<char>>) -> bool {
    forall|i: int, j: int| 0 <= i < j < keys.len() ==> !chars_lt(#[trigger] keys[j], #[trigger] keys[i])
}

proof fn lemma_lt_trans(a: Seq<char>, b: Seq<char>, c: Seq<char>)
    requires
        chars_lt(a, b),
        chars_lt(b, c),
    ensures
        chars_lt(a, c),
    decreases a.len(),
{
    if a.len() > 0 && b.len() > 0 && c.len() > 0 && a[0] == b[0] && b[0] == c[0] {
        lemma_lt_trans(a.drop_first(), b.drop_first(), c.drop_first());
    }
}

proof fn lemma_lt_irrefl(a: Seq<char>)
    ensures
        !chars_lt(a, a),
    decreases a.len(),
{
    if a.len() > 0 {
        lemma_lt_irrefl(a.drop_first());
    }
}

/// What `insert_pos` finds: no key before it is greater than `k`, and the
/// key at it, if any, is.
proof fn lemma_insert_pos_spec(keys: Seq<Seq<char>>, k: Seq<char>)
    ensures
        0 <= insert_pos(keys, k) <= keys.len(),
        forall|j: int| 0 <= j < insert_pos(keys, k) ==> !chars_lt(k, #[trigger] keys[j]),
        insert_pos(keys, k) < keys.len() ==> chars_lt(k, keys[insert_pos(keys, k)]),
    decreases keys.len(),
{
    if keys.len() > 0 && !chars_lt(k, keys[0]) {
        let rest = keys.drop_first();
        lemma_insert_pos_spec(rest, k);
        assert forall|j: int| 0 <= j < insert_pos(keys, k) implies !chars_lt(k, #[trigger] keys[j]) by {
            if j > 0 {
                assert(keys[j] == rest[j - 1]);
            }
        }
        if insert_pos(keys, k) < keys.len() {
            assert(keys[insert_pos(keys, k)] == rest[insert_pos(rest, k)]);
        }
    }
}

/// Inserting a key where `insert_pos` puts it keeps sorted keys sorted.
proof fn lemma_insert_keeps_sorted(keys: Seq<Seq<char>>, k: Seq<char>)
    requires
        keys_sorted(keys),
    ensures
        keys_sorted(keys.insert(insert_pos(keys, k), k)),
{
    let p = insert_pos(keys, k);
    lemma_insert_pos_spec(keys, k);
    let n = keys.insert(p, k);
    assert forall|i: int, j: int| 0 <= i < j < n.len() implies !chars_lt(#[trigger] n[j], #[trigger] n[i]) by {
        if j < p {
            assert(n[i] == keys[i] && n[j] == keys[j]);
        } else if j == p {
            assert(n[i] == keys[i]);
        } else if i == p {
            assert(n[j] == keys[j - 1]);
            if chars_lt(keys[j - 1], k) {
                if j - 1 > p {
                    assert(!chars_lt(keys[j - 1], keys[p]));
                }
                lemma_lt_trans(keys[j - 1], k, keys[p]);
                lemma_lt_irrefl(keys[p]);
            }
        } else if i < p {
            assert(n[i] == keys[i] && n[j] == keys[j - 1]);
        } else {
            assert(n[i] == keys[i - 1] && n[j] == keys[j - 1]);
        }
    }
}

/// Sorting functions by name gives them in non-decreasing order of name,
/// and the same functions as before.
pub proof fn lemma_sort_fns_sorted(s: Seq<ApiFn>)
    ensures
        keys_sorted(fn_names(sort_fns(s))),
        sort_fns(s).to_multiset() == s.to_multiset(),
    decreases s.len(),
{
    broadcast use vstd::seq_lib::to_multiset_insert, vstd::seq_lib::to_multiset_build;
    if s.len() > 0 {
        let prev = sort_fns(s.drop_last());
        lemma_sort_fns_sorted(s.drop_last());
        let p = insert_pos(fn_names(prev), s.last().name@);
        lemma_insert_pos_spec(fn_names(prev), s.last().name@);
        lemma_insert_keeps_sorted(fn_names(prev), s.last().name@);
        assert(fn_names(prev.insert(p, s.last())) =~= fn_names(prev).insert(p, s.last().name@));
        assert(s =~= s.drop_last().push(s.last()));
    } else {
        assert(s.to_multiset() =~= sort_fns(s).to_multiset());
    }
}

/// Sorting types by name gives them in non-decreasing order of name, and
/// the same types as before.
pub proof fn lemma_sort_types_sorted(s: Seq<ApiType>)
    ensures
        keys_sorted(type_names(sort_types(s))),
        sort_types(s).to_multiset() == s.to_multiset(),
    decreases s.len(),
{
    broadcast use vstd::seq_lib::to_multiset_insert, vstd::seq_lib::to_multiset_build;
    if s.len() > 0 {
        let prev = sort_types(s.drop_last());
        lemma_sort_types_sorted(s.drop_last());
        let p = insert_pos(type_names(prev), s.last().name@);
        lemma_insert_pos_spec(type_names(prev), s.last().name@);
        lemma_insert_keeps_sorted(type_names(prev), s.last().name@);
        assert(type_names(prev.insert(p, s.last())) =~= type_names(prev).insert(p, s.last().name@));
        assert(s =~= s.drop_last().push(s.last()));
    } else {
        assert(s.to_multiset() =~= sort_types(s).to_multiset());
    }
}

/// The minimal complete program: the `Model` trait's required methods, how
/// a program is started, how a stateful widget is rendered with its state,
/// and how to drive it headlessly in a test.
pub fn skeleton() -> (r: String)
    ensures
        r@ == SKELETON@,
{
    let mut out = String::new();
    string_push_str(&mut out, SKELETON);
    out
}

/// The text of the minimal complete program.
pub const SKELETON: &'static str = r####"//! The minimal complete Hawk TUI program.
//!
//! This file is served verbatim by `hawktui-ontology skeleton` and by the
//! `program_skeleton` MCP tool, via `include_str!`. It is a compiled example,
//! so the skeleton an agent is handed cannot drift from one that builds.
//!
//! It shows the four things the transcripts say agents go to the source for:
//! the `Model` trait's three required methods, how a `Program` is started, how
//! a stateful widget is rendered with its state, and how to drive the whole
//! thing headlessly in a test.

use hawktui::prelude::*;
use hawktui::runtime::{Command, Model, Program, ProgramOptions};
use hawktui::widget::list::{List, ListItem, ListState};

/// Application state. Plain data — no framework types required.
struct App {
    items: Vec<String>,
    selected: usize,
}

/// One variant per thing that can happen.
enum Msg {
    Down,
    Up,
    Quit,
}

impl Model for App {
    type Msg = Msg;

    /// 1. Fold a message into the state. Return `Command::Quit` to stop.
    fn update(&mut self, msg: Msg) -> Command<Msg> {
        match msg {
            Msg::Down => {
                self.selected = (self.selected + 1).min(self.items.len().saturating_sub(1));
                Command::None
            }
            Msg::Up => {
                self.selected = self.selected.saturating_sub(1);
                Command::None
            }
            Msg::Quit => Command::Quit,
        }
    }

    /// 2. Draw. Takes `&self`, so state that a widget mutates lives here and is
    ///    passed in, not stored in the widget.
    fn view(&self, frame: &mut Frame<'_>) {
        let [body, status] =
            Layout::vertical([Constraint::Min(0), Constraint::Length(1)]).areas(frame.area());

        let items: Vec<ListItem> = self
            .items
            .iter()
            .enumerate()
            .map(|(i, text)| {
                let marker = if i == self.selected { "> " } else { "  " };
                ListItem::new(format!("{marker}{text}"))
            })
            .collect();

        // List is a StatefulWidget: it needs a companion ListState, and it is
        // drawn with render_stateful_widget rather than render_widget.
        let mut state = ListState::default();
        let list = List::new(items).block(Block::default().title("Items").borders(Borders::ALL));
        frame.render_stateful_widget(list, body, &mut state);

        let bar = Paragraph::new(Text::from(format!(
            "{} / {}",
            self.selected + 1,
            self.items.len()
        )));
        frame.render_widget(bar, status);
    }

    /// 3. Turn a terminal event into a message, or `None` to ignore it.
    fn handle_event(&self, event: Event) -> Option<Msg> {
        let Event::Key(key) = event else { return None };
        match key.code {
            KeyCode::Down => Some(Msg::Down),
            KeyCode::Up => Some(Msg::Up),
            KeyCode::Char('q') | KeyCode::Esc => Some(Msg::Quit),
            _ => None,
        }
    }
}

fn app() -> App {
    App {
        items: vec!["alpha".into(), "beta".into(), "gamma".into()],
        selected: 0,
    }
}

fn main() -> std::io::Result<()> {
    // ProgramOptions::default() takes over the terminal: raw mode, alternate
    // screen, mouse capture, and a 16 ms tick. Turn them off for anything
    // headless or with redirected output.
    let options = ProgramOptions {
        tick_rate: None,
        ..Default::default()
    };
    let backend = CrosstermBackend::new(std::io::stdout());
    Program::new(app(), backend)?.with_options(options).run()?;
    Ok(())
}

#[cfg(test)]
mod tests {
    use super::*;
    use hawktui::testing::Harness;

    /// Drive the program without a terminal: apply keys, read back each frame
    /// as plain text.
    #[test]
    fn selection_moves_and_q_quits() {
        let mut harness = Harness::new(app(), 30, 6).unwrap();
        let frames = harness.run_script("Down,Down,q").unwrap();

        // One frame for the initial render, one per key — and none for `q`,
        // because quitting ends the run.
        assert_eq!(frames.len(), 3);
        assert!(frames[0].contains("> alpha"));
        assert!(frames[2].contains("> gamma"));
        assert!(!harness.is_running());
    }
}
"####;

} // verus!
