//! The widget registry's searches and the live UI tree's lookups, over the
//! plain values they read: names, descriptions, tags, roles and ids.
use vstd::prelude::*;
use super::api::{mentions, text_mentions};
use super::schema::{role_name, SemanticRole};
use crate::base::chars::{lowercase, str_eq, str_to_chars, to_lowercase};

verus! {

/// Bounding rectangle of a UI node in terminal coordinates.
#[derive(Debug, Clone, Copy, PartialEq, Eq, Structural)]
pub struct NodeBounds {
    pub x: u16,
    pub y: u16,
    pub width: u16,
    pub height: u16,
}

/// The type of a widget property, as the registry's renderings name it.
#[derive(Debug)]
pub enum PropertyKind {
    String,
    Integer,
    Float,
    Boolean,
    Color,
    Style,
    Rect,
    /// One of the named variants.
    Enum(Vec<String>),
    /// A list of values of the inner kind.
    Array(Box<PropertyKind>),
    Object,
    Widget,
    Any,
}

/// What the registry's renderings read of a widget property.
#[derive(Debug)]
pub struct PropertyInfo {
    pub name: String,
    pub required: bool,
    pub kind: PropertyKind,
}

/// What the registry's searches and renderings read of a widget schema.
#[derive(Debug)]
pub struct SchemaInfo {
    pub name: String,
    pub description: String,
    pub tags: Vec<String>,
    pub role: SemanticRole,
    pub properties: Vec<PropertyInfo>,
    pub usage_hint: Option<String>,
}

/// Whether some tag mentions the lowercase query `q`.
pub open spec fn tag_mentions(tags: Seq<String>, q: Seq<char>) -> bool {
    exists|i: int| 0 <= i < tags.len() && #[trigger] mentions(tags[i]@, q)
}

/// Whether a schema's name, description or one of its tags contains the
/// lowercase query `q`, case-insensitively.
pub open spec fn schema_matches(s: SchemaInfo, q: Seq<char>) -> bool {
    ||| mentions(s.name@, q)
    ||| mentions(s.description@, q)
    ||| tag_mentions(s.tags@, q)
}

/// The positions of the schemas matching `q`, in order.
pub open spec fn matching_schemas(schemas: Seq<SchemaInfo>, q: Seq<char>) -> Seq<int>
    decreases schemas.len(),
{
    if schemas.len() == 0 {
        Seq::empty()
    } else {
        let rest = matching_schemas(schemas.drop_last(), q);
        if schema_matches(schemas.last(), q) { rest.push(schemas.len() - 1) } else { rest }
    }
}

/// The positions of the schemas whose role is `role`, in order.
pub open spec fn schemas_with_role(schemas: Seq<SchemaInfo>, role: SemanticRole) -> Seq<int>
    decreases schemas.len(),
{
    if schemas.len() == 0 {
        Seq::empty()
    } else {
        let rest = schemas_with_role(schemas.drop_last(), role);
        if schemas.last().role == role { rest.push(schemas.len() - 1) } else { rest }
    }
}

/// Positions as integers.
pub open spec fn positions(v: Seq<usize>) -> Seq<int> {
    v.map_values(|i: usize| i as int)
}

/// Whether some tag mentions `q`.
fn tags_mention(tags: &[String], q: &[char]) -> (r: bool)
    ensures
        r == tag_mentions(tags@, q@),
{
    let mut i: usize = 0;
    while i < tags.len()
        invariant
            i <= tags@.len(),
            forall|k: int| 0 <= k < i ==> !mentions(#[trigger] tags@[k]@, q@),
        decreases tags@.len() - i,
    {
        if text_mentions(tags[i].as_str(), q) {
            return true;
        }
        i = i + 1;
    }
    false
}

/// Search widget schemas by name, description or tag: a case-insensitive
/// substring match. Returns the positions of the matches, in order.
pub fn search(schemas: &[SchemaInfo], query: &str) -> (r: Vec<usize>)
    ensures
        positions(r@) == matching_schemas(schemas@, lowercase(query@)),
        forall|k: int| 0 <= k < r@.len() ==> (#[trigger] r@[k]) < schemas@.len(),
{
    let lower = to_lowercase(query);
    let q = str_to_chars(lower.as_str());
    let mut out: Vec<usize> = Vec::new();
    let mut i: usize = 0;
    while i < schemas.len()
        invariant
            i <= schemas@.len(),
            q@ == lowercase(query@),
            positions(out@) == matching_schemas(schemas@.take(i as int), q@),
            forall|k: int| 0 <= k < out@.len() ==> (#[trigger] out@[k]) < i,
        decreases schemas@.len() - i,
    {
        assert(schemas@.take(i + 1).drop_last() =~= schemas@.take(i as int));
        let s = &schemas[i];
        let hit = text_mentions(s.name.as_str(), q.as_slice()) || text_mentions(s.description.as_str(), q.as_slice())
            || tags_mention(s.tags.as_slice(), q.as_slice());
        if hit {
            out.push(i);
        }
        assert(positions(out@) =~= matching_schemas(schemas@.take(i + 1), q@));
        i = i + 1;
    }
    assert(schemas@.take(schemas@.len() as int) =~= schemas@);
    out
}

/// The positions of the widget schemas whose role is `role`, in order.
pub fn find_by_role(schemas: &[SchemaInfo], role: SemanticRole) -> (r: Vec<usize>)
    ensures
        positions(r@) == schemas_with_role(schemas@, role),
{
    let mut out: Vec<usize> = Vec::new();
    let mut i: usize = 0;
    while i < schemas.len()
        invariant
            i <= schemas@.len(),
            positions(out@) == schemas_with_role(schemas@.take(i as int), role),
        decreases schemas@.len() - i,
    {
        assert(schemas@.take(i + 1).drop_last() =~= schemas@.take(i as int));
        if schemas[i].role == role {
            out.push(i);
        }
        assert(positions(out@) =~= schemas_with_role(schemas@.take(i + 1), role));
        i = i + 1;
    }
    assert(schemas@.take(schemas@.len() as int) =~= schemas@);
    out
}

/// Every position below `n`, in order.
pub open spec fn all_positions(n: int) -> Seq<int> {
    Seq::new(n as nat, |i: int| i)
}

/// The positions among `ps` whose schema's role is named `role`, in order.
pub open spec fn with_role_name(schemas: Seq<SchemaInfo>, ps: Seq<int>, role: Seq<char>) -> Seq<int>
    decreases ps.len(),
{
    if ps.len() == 0 {
        Seq::empty()
    } else {
        let rest = with_role_name(schemas, ps.drop_last(), role);
        if role_name(schemas[ps.last()].role) == role { rest.push(ps.last()) } else { rest }
    }
}

/// The schemas an ontology query selects: those matching `query` when one
/// is given (all of them otherwise), kept only when their role's name is
/// `role`, where one is given.
pub open spec fn queried(schemas: Seq<SchemaInfo>, query: Option<Seq<char>>, role: Option<Seq<char>>) -> Seq<int> {
    let base = match query {
        Some(q) => matching_schemas(schemas, lowercase(q)),
        None => all_positions(schemas.len() as int),
    };
    match role {
        Some(l) => with_role_name(schemas, base, l),
        None => base,
    }
}

/// Answer an ontology query: the positions of the selected schemas, in
/// order.
pub fn query_schemas(schemas: &[SchemaInfo], query: Option<&str>, role: Option<&str>) -> (r: Vec<usize>)
    ensures
        positions(r@) == queried(
            schemas@,
            match query {
                Some(q) => Some(q@),
                None => None,
            },
            match role {
                Some(l) => Some(l@),
                None => None,
            },
        ),
{
    let base = match query {
        Some(q) => search(schemas, q),
        None => {
            let mut all: Vec<usize> = Vec::new();
            let mut i: usize = 0;
            while i < schemas.len()
                invariant
                    i <= schemas@.len(),
                    all@.len() == i,
                    forall|k: int| 0 <= k < i ==> (#[trigger] all@[k]) == k,
                decreases schemas@.len() - i,
            {
                all.push(i);
                i = i + 1;
            }
            assert(positions(all@) =~= all_positions(schemas@.len() as int));
            all
        },
    };
    let ghost bs = positions(base@);
    match role {
        None => base,
        Some(l) => {
            let mut out: Vec<usize> = Vec::new();
            let mut i: usize = 0;
            while i < base.len()
                invariant
                    i <= base@.len(),
                    bs == positions(base@),
                    forall|k: int| 0 <= k < base@.len() ==> (#[trigger] base@[k]) < schemas@.len(),
                    positions(out@) == with_role_name(schemas@, bs.take(i as int), l@),
                decreases base@.len() - i,
            {
                assert(bs.take(i + 1).drop_last() =~= bs.take(i as int));
                assert(bs.take(i + 1).last() == base@[i as int] as int);
                let p = base[i];
                let name = schemas[p].role.label();
                if str_eq(name.as_str(), l) {
                    out.push(p);
                }
                assert(positions(out@) =~= with_role_name(schemas@, bs.take(i + 1), l@));
                i = i + 1;
            }
            assert(bs.take(base@.len() as int) =~= bs);
            out
        },
    }
}

/// What a lookup reads of a node of the live UI tree.
#[derive(Debug)]
pub struct TreeNode {
    pub agent_id: Option<String>,
    pub role: SemanticRole,
}

/// The live UI tree's nodes in depth-first order: each node before its
/// children, children in order.
#[derive(Debug)]
pub struct NodeTree {
    pub nodes: Vec<TreeNode>,
}

/// Whether a node carries the agent id `id`.
pub open spec fn has_id(n: TreeNode, id: Seq<char>) -> bool {
    n.agent_id matches Some(s) && s@ == id
}

/// The depth-first first node with agent id `id`: its position, or `None`
/// when no node carries that id.
pub fn find_node(tree: &NodeTree, id: &str) -> (r: Option<usize>)
    ensures
        match r {
            Some(i) => i < tree.nodes@.len() && has_id(tree.nodes@[i as int], id@) && forall|j: int|
                0 <= j < i ==> !has_id(#[trigger] tree.nodes@[j], id@),
            None => forall|j: int| 0 <= j < tree.nodes@.len() ==> !has_id(#[trigger] tree.nodes@[j], id@),
        },
{
    let mut i: usize = 0;
    while i < tree.nodes.len()
        invariant
            i <= tree.nodes@.len(),
            forall|j: int| 0 <= j < i ==> !has_id(#[trigger] tree.nodes@[j], id@),
        decreases tree.nodes@.len() - i,
    {
        let hit = match &tree.nodes[i].agent_id {
            Some(s) => str_eq(s.as_str(), id),
            None => false,
        };
        if hit {
            return Some(i);
        }
        i = i + 1;
    }
    None
}

/// The positions of the nodes whose role is `role`, in order.
pub open spec fn nodes_in_role(nodes: Seq<TreeNode>, role: SemanticRole) -> Seq<int>
    decreases nodes.len(),
{
    if nodes.len() == 0 {
        Seq::empty()
    } else {
        let rest = nodes_in_role(nodes.drop_last(), role);
        if nodes.last().role == role { rest.push(nodes.len() - 1) } else { rest }
    }
}

/// The positions, in depth-first order, of the nodes whose role is `role`.
pub fn nodes_with_role(tree: &NodeTree, role: SemanticRole) -> (r: Vec<usize>)
    ensures
        positions(r@) == nodes_in_role(tree.nodes@, role),
{
    let mut out: Vec<usize> = Vec::new();
    let mut i: usize = 0;
    while i < tree.nodes.len()
        invariant
            i <= tree.nodes@.len(),
            positions(out@) == nodes_in_role(tree.nodes@.take(i as int), role),
        decreases tree.nodes@.len() - i,
    {
        assert(tree.nodes@.take(i + 1).drop_last() =~= tree.nodes@.take(i as int));
        if tree.nodes[i].role == role {
            out.push(i);
        }
        assert(positions(out@) =~= nodes_in_role(tree.nodes@.take(i + 1), role));
        i = i + 1;
    }
    assert(tree.nodes@.take(tree.nodes@.len() as int) =~= tree.nodes@);
    out
}

} // verus!
