//! Renderings of the widget registry for people and agents: the one-line
//! listing, search results, the cheatsheet digest and the widgets grouped by
//! role. They read the plain values of `SchemaInfo`.
use vstd::prelude::*;
use super::registry::{matching_schemas, positions, search, PropertyInfo, PropertyKind, SchemaInfo};
use super::report::{chars_lt, insert_pos, lemma_insert_pos, padded, push_padded, str_lt};
use super::schema::role_name;
use crate::base::chars::{lowercase, str_eq, string_push_str};
use crate::testing::{decimal, push_decimal};

verus! {

/// Variant names joined by `|`.
pub open spec fn bar_joined(vs: Seq<String>) -> Seq<char>
    decreases vs.len(),
{
    if vs.len() == 0 {
        Seq::empty()
    } else if vs.len() == 1 {
        vs[0]@
    } else {
        bar_joined(vs.drop_last()) + "|"@ + vs.last()@
    }
}

/// The short name of a property kind.
pub open spec fn kind_name(k: PropertyKind) -> Seq<char>
    decreases k,
{
    match k {
        PropertyKind::String => "string"@,
        PropertyKind::Integer => "int"@,
        PropertyKind::Float => "float"@,
        PropertyKind::Boolean => "bool"@,
        PropertyKind::Color => "color"@,
        PropertyKind::Style => "style"@,
        PropertyKind::Rect => "rect"@,
        PropertyKind::Enum(vs) => "enum("@ + bar_joined(vs@) + ")"@,
        PropertyKind::Array(inner) => "["@ + kind_name(*inner) + "]"@,
        PropertyKind::Object => "object"@,
        PropertyKind::Widget => "widget"@,
        PropertyKind::Any => "any"@,
    }
}

/// A short, readable name for a property kind.
pub fn property_type_name(k: &PropertyKind) -> (r: String)
    ensures
        r@ == kind_name(*k),
    decreases k,
{
    let mut out = String::new();
    match k {
        PropertyKind::String => string_push_str(&mut out, "string"),
        PropertyKind::Integer => string_push_str(&mut out, "int"),
        PropertyKind::Float => string_push_str(&mut out, "float"),
        PropertyKind::Boolean => string_push_str(&mut out, "bool"),
        PropertyKind::Color => string_push_str(&mut out, "color"),
        PropertyKind::Style => string_push_str(&mut out, "style"),
        PropertyKind::Rect => string_push_str(&mut out, "rect"),
        PropertyKind::Enum(vs) => {
            string_push_str(&mut out, "enum(");
            let ghost start = out@;
            let mut i: usize = 0;
            while i < vs.len()
                invariant
                    i <= vs@.len(),
                    out@ == start + bar_joined(vs@.take(i as int)),
                decreases vs@.len() - i,
            {
                assert(vs@.take(i + 1).drop_last() =~= vs@.take(i as int));
                if i > 0 {
                    string_push_str(&mut out, "|");
                } else {
                    assert(vs@.take(0) =~= Seq::<String>::empty());
                }
                string_push_str(&mut out, vs[i].as_str());
                assert(out@ =~= start + bar_joined(vs@.take(i + 1)));
                i = i + 1;
            }
            assert(vs@.take(vs@.len() as int) =~= vs@);
            string_push_str(&mut out, ")");
        },
        PropertyKind::Array(inner) => {
            string_push_str(&mut out, "[");
            let t = property_type_name(&**inner);
            string_push_str(&mut out, t.as_str());
            string_push_str(&mut out, "]");
        },
        PropertyKind::Object => string_push_str(&mut out, "object"),
        PropertyKind::Widget => string_push_str(&mut out, "widget"),
        PropertyKind::Any => string_push_str(&mut out, "any"),
    }
    out
}

/// The names of schemas.
pub open spec fn schema_names(s: Seq<SchemaInfo>) -> Seq<Seq<char>> {
    s.map_values(|x: SchemaInfo| x.name@)
}

/// Schemas sorted by name, stably.
pub open spec fn sort_schemas(s: Seq<SchemaInfo>) -> Seq<SchemaInfo>
    decreases s.len(),
{
    if s.len() == 0 {
        s
    } else {
        let prev = sort_schemas(s.drop_last());
        prev.insert(insert_pos(schema_names(prev), s.last().name@), s.last())
    }
}

/// The schemas a sequence of references points to.
pub open spec fn schema_values(v: Seq<&SchemaInfo>) -> Seq<SchemaInfo> {
    v.map_values(|x: &SchemaInfo| *x)
}

/// The schemas at the given positions, in that order.
pub open spec fn picked(s: Seq<SchemaInfo>, ps: Seq<int>) -> Seq<SchemaInfo> {
    ps.map_values(|i: int| s[i])
}

/// One line of the listing: name and role padded to 18 columns, then the
/// description.
pub open spec fn summary_line(x: SchemaInfo) -> Seq<char> {
    padded(x.name@, 18) + " "@ + padded(role_name(x.role), 18) + " "@ + x.description@ + "\n"@
}

/// The listing lines of schemas, in order.
pub open spec fn summary_lines(s: Seq<SchemaInfo>) -> Seq<char>
    decreases s.len(),
{
    if s.len() == 0 {
        Seq::empty()
    } else {
        summary_lines(s.drop_last()) + summary_line(s.last())
    }
}

/// The schemas sorted by name, stably.
fn sort_by_name<'a>(v: &Vec<&'a SchemaInfo>) -> (r: Vec<&'a SchemaInfo>)
    ensures
        schema_values(r@) == sort_schemas(schema_values(v@)),
{
    let mut out: Vec<&'a SchemaInfo> = Vec::new();
    let mut i: usize = 0;
    while i < v.len()
        invariant
            i <= v@.len(),
            schema_values(out@) == sort_schemas(schema_values(v@).take(i as int)),
        decreases v@.len() - i,
    {
        let t = v[i];
        let ghost keys = schema_names(schema_values(out@));
        let mut p: usize = 0;
        while p < out.len()
            invariant
                p <= out@.len(),
                keys == schema_names(schema_values(out@)),
                forall|j: int| 0 <= j < p ==> !chars_lt(t.name@, #[trigger] keys[j]),
            ensures
                p <= out@.len(),
                forall|j: int| 0 <= j < p ==> !chars_lt(t.name@, #[trigger] keys[j]),
                p == out@.len() || chars_lt(t.name@, keys[p as int]),
            decreases out@.len() - p,
        {
            assert(keys[p as int] == out@[p as int].name@);
            if str_lt(t.name.as_str(), out[p].name.as_str()) {
                break;
            }
            p = p + 1;
        }
        proof {
            lemma_insert_pos(keys, t.name@, p as int);
            assert(schema_values(v@).take(i + 1).drop_last() =~= schema_values(v@).take(i as int));
        }
        let ghost before = out@;
        out.insert(p, t);
        assert(schema_values(out@) =~= schema_values(before).insert(p as int, *t));
        i = i + 1;
    }
    assert(schema_values(v@).take(v@.len() as int) =~= schema_values(v@));
    out
}

/// Append one listing line.
fn push_summary(out: &mut String, x: &SchemaInfo)
    ensures
        final(out)@ == old(out)@ + summary_line(*x),
{
    push_padded(out, x.name.as_str(), 18);
    string_push_str(out, " ");
    let role = x.role.label();
    push_padded(out, role.as_str(), 18);
    string_push_str(out, " ");
    string_push_str(out, x.description.as_str());
    string_push_str(out, "\n");
    assert(final(out)@ =~= old(out)@ + summary_line(*x));
}

/// The listing lines of the schemas, in order.
fn summaries(v: &Vec<&SchemaInfo>) -> (r: String)
    ensures
        r@ == summary_lines(schema_values(v@)),
{
    let mut out = String::new();
    let mut i: usize = 0;
    while i < v.len()
        invariant
            i <= v@.len(),
            out@ == summary_lines(schema_values(v@).take(i as int)),
        decreases v@.len() - i,
    {
        assert(schema_values(v@).take(i + 1).drop_last() =~= schema_values(v@).take(i as int));
        push_summary(&mut out, v[i]);
        i = i + 1;
    }
    assert(schema_values(v@).take(v@.len() as int) =~= schema_values(v@));
    out
}

/// References to every schema, in order.
fn all_refs(schemas: &[SchemaInfo]) -> (r: Vec<&SchemaInfo>)
    ensures
        schema_values(r@) == schemas@,
{
    let mut out: Vec<&SchemaInfo> = Vec::new();
    let mut i: usize = 0;
    while i < schemas.len()
        invariant
            i <= schemas@.len(),
            out@.len() == i,
            schema_values(out@) == schemas@.take(i as int),
        decreases schemas@.len() - i,
    {
        let x = &schemas[i];
        assert(*x == schemas@[i as int]);
        out.push(x);
        assert(out@[i as int] == x);
        assert(schema_values(out@) =~= schemas@.take(i + 1));
        i = i + 1;
    }
    assert(schemas@.take(schemas@.len() as int) =~= schemas@);
    out
}

/// One line per widget, sorted by name: name, semantic role, description.
pub fn list(schemas: &[SchemaInfo]) -> (r: String)
    ensures
        r@ == summary_lines(sort_schemas(schemas@)),
{
    let refs = all_refs(schemas);
    let sorted = sort_by_name(&refs);
    summaries(&sorted)
}

/// The widgets matching a query (by name, description or tag, ignoring
/// case), sorted by name, in the shape of `list`.
pub fn search_text(schemas: &[SchemaInfo], query: &str) -> (r: String)
    ensures
        r@ == summary_lines(sort_schemas(picked(schemas@, matching_schemas(schemas@, lowercase(query@))))),
{
    let hits = search(schemas, query);
    let mut refs: Vec<&SchemaInfo> = Vec::new();
    let mut i: usize = 0;
    while i < hits.len()
        invariant
            i <= hits@.len(),
            positions(hits@) == matching_schemas(schemas@, lowercase(query@)),
            forall|k: int| 0 <= k < hits@.len() ==> (#[trigger] hits@[k]) < schemas@.len(),
            refs@.len() == i,
            schema_values(refs@) == picked(schemas@, positions(hits@)).take(i as int),
        decreases hits@.len() - i,
    {
        refs.push(&schemas[hits[i]]);
        assert(*refs@[i as int] == schemas@[hits@[i as int] as int]);
        assert(positions(hits@)[i as int] == hits@[i as int] as int);
        assert(schema_values(refs@) =~= picked(schemas@, positions(hits@)).take(i + 1));
        i = i + 1;
    }
    assert(picked(schemas@, positions(hits@)).take(hits@.len() as int) =~= picked(schemas@, positions(hits@)));
    let sorted = sort_by_name(&refs);
    summaries(&sorted)
}

/// One property line of the digest: name, a `*` when required, and type.
pub open spec fn property_line(p: PropertyInfo) -> Seq<char> {
    "- "@ + p.name@ + (if p.required { "*"@ } else { Seq::empty() }) + ": "@ + kind_name(p.kind) + "\n"@
}

/// The property lines, in order.
pub open spec fn property_lines(ps: Seq<PropertyInfo>) -> Seq<char>
    decreases ps.len(),
{
    if ps.len() == 0 {
        Seq::empty()
    } else {
        property_lines(ps.drop_last()) + property_line(ps.last())
    }
}

/// One widget's section of the digest: heading, properties, usage hint in
/// a code block when there is one, and a blank line.
pub open spec fn digest_entry(x: SchemaInfo) -> Seq<char> {
    "## "@ + x.name@ + " — "@ + x.description@ + " ("@ + role_name(x.role) + ")\n"@ + property_lines(x.properties@)
        + match x.usage_hint {
        Some(h) => "\n```rust\n"@ + h@ + "\n```\n"@,
        None => Seq::empty(),
    } + "\n"@
}

/// The digest sections, in order.
pub open spec fn digest_entries(s: Seq<SchemaInfo>) -> Seq<char>
    decreases s.len(),
{
    if s.len() == 0 {
        Seq::empty()
    } else {
        digest_entries(s.drop_last()) + digest_entry(s.last())
    }
}

/// The digest of a registry: a title, the number of widget types, then
/// each widget's section, sorted by name.
pub open spec fn digest_text(s: Seq<SchemaInfo>) -> Seq<char> {
    "# Hawk TUI widget ontology (generated)\n\n"@ + decimal(s.len()) + " widget types. Format: `property: type` per line.\n\n"@
        + digest_entries(sort_schemas(s))
}

/// Append one widget's section of the digest.
fn push_digest_entry(out: &mut String, x: &SchemaInfo)
    ensures
        final(out)@ == old(out)@ + digest_entry(*x),
{
    let ghost start = old(out)@;
    string_push_str(out, "## ");
    string_push_str(out, x.name.as_str());
    string_push_str(out, " — ");
    string_push_str(out, x.description.as_str());
    string_push_str(out, " (");
    let role = x.role.label();
    string_push_str(out, role.as_str());
    string_push_str(out, ")\n");
    let ghost head = out@;
    let mut i: usize = 0;
    while i < x.properties.len()
        invariant
            i <= x.properties@.len(),
            out@ == head + property_lines(x.properties@.take(i as int)),
        decreases x.properties@.len() - i,
    {
        assert(x.properties@.take(i + 1).drop_last() =~= x.properties@.take(i as int));
        let p = &x.properties[i];
        string_push_str(out, "- ");
        string_push_str(out, p.name.as_str());
        if p.required {
            string_push_str(out, "*");
        }
        string_push_str(out, ": ");
        let t = property_type_name(&p.kind);
        string_push_str(out, t.as_str());
        string_push_str(out, "\n");
        assert(out@ =~= head + property_lines(x.properties@.take(i + 1)));
        i = i + 1;
    }
    assert(x.properties@.take(x.properties@.len() as int) =~= x.properties@);
    match &x.usage_hint {
        Some(h) => {
            string_push_str(out, "\n```rust\n");
            string_push_str(out, h.as_str());
            string_push_str(out, "\n```\n");
        },
        None => {},
    }
    string_push_str(out, "\n");
    assert(out@ =~= start + digest_entry(*x));
}

/// A compact Markdown cheatsheet of every widget and its properties,
/// sorted by name.
pub fn digest(schemas: &[SchemaInfo]) -> (r: String)
    ensures
        r@ == digest_text(schemas@),
{
    let mut out = String::new();
    string_push_str(&mut out, "# Hawk TUI widget ontology (generated)\n\n");
    push_decimal(&mut out, schemas.len());
    string_push_str(&mut out, " widget types. Format: `property: type` per line.\n\n");
    let ghost head = out@;
    let refs = all_refs(schemas);
    let sorted = sort_by_name(&refs);
    let mut i: usize = 0;
    while i < sorted.len()
        invariant
            i <= sorted@.len(),
            out@ == head + digest_entries(schema_values(sorted@).take(i as int)),
        decreases sorted@.len() - i,
    {
        assert(schema_values(sorted@).take(i + 1).drop_last() =~= schema_values(sorted@).take(i as int));
        push_digest_entry(&mut out, sorted[i]);
        assert(out@ =~= head + digest_entries(schema_values(sorted@).take(i + 1)));
        i = i + 1;
    }
    assert(schema_values(sorted@).take(sorted@.len() as int) =~= schema_values(sorted@));
    out
}

/// The role names of schemas.
pub open spec fn role_keys(s: Seq<SchemaInfo>) -> Seq<Seq<char>> {
    s.map_values(|x: SchemaInfo| role_name(x.role))
}

/// Schemas sorted by the name of their role, stably.
pub open spec fn sort_by_role(s: Seq<SchemaInfo>) -> Seq<SchemaInfo>
    decreases s.len(),
{
    if s.len() == 0 {
        s
    } else {
        let prev = sort_by_role(s.drop_last());
        prev.insert(insert_pos(role_keys(prev), role_name(s.last().role)), s.last())
    }
}

/// The runs of schemas with the same role name, in order: each role name
/// with the names of the widgets in its run.
pub open spec fn role_runs(u: Seq<SchemaInfo>) -> Seq<(Seq<char>, Seq<Seq<char>>)>
    decreases u.len(),
{
    if u.len() == 0 {
        Seq::empty()
    } else {
        let r = role_runs(u.drop_last());
        let l = role_name(u.last().role);
        if r.len() > 0 && r.last().0 == l {
            r.update(r.len() - 1, (l, r.last().1.push(u.last().name@)))
        } else {
            r.push((l, seq![u.last().name@]))
        }
    }
}

/// Names joined by `, `.
pub open spec fn comma_joined(ns: Seq<Seq<char>>) -> Seq<char>
    decreases ns.len(),
{
    if ns.len() == 0 {
        Seq::empty()
    } else if ns.len() == 1 {
        ns[0]
    } else {
        comma_joined(ns.drop_last()) + ", "@ + ns.last()
    }
}

/// One line per run: the role name padded to 20 columns, then the names.
pub open spec fn run_lines(runs: Seq<(Seq<char>, Seq<Seq<char>>)>) -> Seq<char>
    decreases runs.len(),
{
    if runs.len() == 0 {
        Seq::empty()
    } else {
        run_lines(runs.drop_last()) + padded(runs.last().0, 20) + " "@ + comma_joined(runs.last().1) + "\n"@
    }
}

/// The widgets grouped by role: one line per role, roles in order of their
/// names, each with the names of its widgets in order.
pub open spec fn roles_text(s: Seq<SchemaInfo>) -> Seq<char> {
    run_lines(role_runs(sort_by_role(sort_schemas(s))))
}

/// The schemas sorted by the name of their role, stably.
fn sort_by_role_name<'a>(v: &Vec<&'a SchemaInfo>) -> (r: Vec<&'a SchemaInfo>)
    ensures
        schema_values(r@) == sort_by_role(schema_values(v@)),
{
    let mut out: Vec<&'a SchemaInfo> = Vec::new();
    let mut i: usize = 0;
    while i < v.len()
        invariant
            i <= v@.len(),
            schema_values(out@) == sort_by_role(schema_values(v@).take(i as int)),
        decreases v@.len() - i,
    {
        let t = v[i];
        let tl = t.role.label();
        let ghost keys = role_keys(schema_values(out@));
        let mut p: usize = 0;
        while p < out.len()
            invariant
                p <= out@.len(),
                tl@ == role_name(t.role),
                keys == role_keys(schema_values(out@)),
                forall|j: int| 0 <= j < p ==> !chars_lt(tl@, #[trigger] keys[j]),
            ensures
                p <= out@.len(),
                forall|j: int| 0 <= j < p ==> !chars_lt(tl@, #[trigger] keys[j]),
                p == out@.len() || chars_lt(tl@, keys[p as int]),
            decreases out@.len() - p,
        {
            let ol = out[p].role.label();
            assert(keys[p as int] == role_name(out@[p as int].role));
            if str_lt(tl.as_str(), ol.as_str()) {
                break;
            }
            p = p + 1;
        }
        proof {
            lemma_insert_pos(keys, tl@, p as int);
            assert(schema_values(v@).take(i + 1).drop_last() =~= schema_values(v@).take(i as int));
        }
        let ghost before = out@;
        out.insert(p, t);
        assert(schema_values(out@) =~= schema_values(before).insert(p as int, *t));
        i = i + 1;
    }
    assert(schema_values(v@).take(v@.len() as int) =~= schema_values(v@));
    out
}

/// The runs as values.
pub open spec fn runs_view(runs: Seq<(String, Vec<String>)>) -> Seq<(Seq<char>, Seq<Seq<char>>)> {
    runs.map_values(|r: (String, Vec<String>)| (r.0@, r.1@.map_values(|n: String| n@)))
}

/// The widgets grouped by role, for finding one by what it does: one line
/// per role, roles in order of their names, each listing its widgets by
/// name.
pub fn roles(schemas: &[SchemaInfo]) -> (r: String)
    ensures
        r@ == roles_text(schemas@),
{
    let refs = all_refs(schemas);
    let by_name = sort_by_name(&refs);
    let u = sort_by_role_name(&by_name);
    let ghost us = schema_values(u@);
    let mut runs: Vec<(String, Vec<String>)> = Vec::new();
    let mut i: usize = 0;
    while i < u.len()
        invariant
            i <= u@.len(),
            us == schema_values(u@),
            runs_view(runs@) == role_runs(us.take(i as int)),
        decreases u@.len() - i,
    {
        assert(us.take(i + 1).drop_last() =~= us.take(i as int));
        assert(us.take(i + 1).last() == *u@[i as int]);
        let x = u[i];
        let label = x.role.label();
        let mut name = String::new();
        string_push_str(&mut name, x.name.as_str());
        let ghost prev = runs_view(runs@);
        let n = runs.len();
        let same = if n > 0 {
            str_eq_strings(&runs[n - 1].0, &label)
        } else {
            false
        };
        if same {
            let (l, mut names) = runs.pop().unwrap();
            let ghost old_names = names@;
            names.push(name);
            runs.push((l, names));
            proof {
                assert(names@.map_values(|s: String| s@) =~= old_names.map_values(|s: String| s@).push(x.name@));
                assert(runs_view(runs@) =~= prev.update(prev.len() - 1, (label@, prev.last().1.push(x.name@))));
            }
        } else {
            let mut names: Vec<String> = Vec::new();
            names.push(name);
            runs.push((label, names));
            proof {
                assert(names@.map_values(|s: String| s@) =~= seq![x.name@]);
                assert(runs_view(runs@) =~= prev.push((role_name(x.role), seq![x.name@])));
            }
        }
        i = i + 1;
    }
    assert(us.take(u@.len() as int) =~= us);
    let mut out = String::new();
    let mut k: usize = 0;
    while k < runs.len()
        invariant
            k <= runs@.len(),
            out@ == run_lines(runs_view(runs@).take(k as int)),
        decreases runs@.len() - k,
    {
        assert(runs_view(runs@).take(k + 1).drop_last() =~= runs_view(runs@).take(k as int));
        let (label, names) = &runs[k];
        push_padded(&mut out, label.as_str(), 20);
        string_push_str(&mut out, " ");
        let ghost before = out@;
        let mut j: usize = 0;
        while j < names.len()
            invariant
                j <= names@.len(),
                out@ == before + comma_joined(names@.map_values(|n: String| n@).take(j as int)),
            decreases names@.len() - j,
        {
            assert(names@.map_values(|n: String| n@).take(j + 1).drop_last() =~= names@.map_values(|n: String| n@).take(j as int));
            if j > 0 {
                string_push_str(&mut out, ", ");
            }
            string_push_str(&mut out, names[j].as_str());
            assert(out@ =~= before + comma_joined(names@.map_values(|n: String| n@).take(j + 1)));
            j = j + 1;
        }
        assert(names@.map_values(|n: String| n@).take(names@.len() as int) =~= names@.map_values(|n: String| n@));
        string_push_str(&mut out, "\n");
        assert(out@ =~= run_lines(runs_view(runs@).take(k + 1)));
        k = k + 1;
    }
    assert(runs_view(runs@).take(runs@.len() as int) =~= runs_view(runs@));
    out
}

/// Whether two strings are equal.
fn str_eq_strings(a: &String, b: &String) -> (r: bool)
    ensures
        r == (a@ == b@),
{
    str_eq(a.as_str(), b.as_str())
}

} // verus!
