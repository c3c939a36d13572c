//! Entity extraction: the ordered, filtered hierarchy of entities that a
//! parsed file becomes under the retention policy.

use vstd::prelude::*;

use crate::policy::PolicyEntry;
use crate::policy::RetentionPolicy;
use crate::policy::spec_normalize_extension;
use crate::policy::spec_retains;
use crate::policy::normalize_extension;

verus! {

/// One node of a parsed syntax tree, as the syntax parser hands it to the
/// library: its kind, its source span (end exclusive), the source slice it
/// covers, and its ordered children.
#[derive(Debug)]
pub struct SyntaxNode {
    pub kind: String,
    pub start_byte: usize,
    pub end_byte: usize,
    pub text: String,
    pub children: Vec<SyntaxNode>,
}

/// A syntax-tree node retained by the policy: an indexed entity. `order` is
/// its 1-based position among its retained siblings; `is_super` is true only
/// for a file's immediate retained entities, which are the only ones
/// embedded.
#[derive(Debug, PartialEq)]
pub struct CodeEntity {
    pub entity_type: String,
    pub start_byte: usize,
    pub end_byte: usize,
    pub order: usize,
    pub text: String,
    pub is_super: bool,
    pub children: Vec<CodeEntity>,
}

/// The mathematical shape of a syntax node: strings as character sequences.
pub struct NodeView {
    pub kind: Seq<char>,
    pub start_byte: int,
    pub end_byte: int,
    pub text: Seq<char>,
    pub children: Seq<NodeView>,
}

/// The mathematical shape of an entity.
pub struct EntityView {
    pub entity_type: Seq<char>,
    pub start_byte: int,
    pub end_byte: int,
    pub order: int,
    pub text: Seq<char>,
    pub is_super: bool,
    pub children: Seq<EntityView>,
}

pub open spec fn node_view(n: SyntaxNode) -> NodeView
    decreases n,
{
    NodeView {
        kind: n.kind@,
        start_byte: n.start_byte as int,
        end_byte: n.end_byte as int,
        text: n.text@,
        children: nodes_view(n.children@),
    }
}

pub open spec fn nodes_view(s: Seq<SyntaxNode>) -> Seq<NodeView>
    decreases s,
{
    if s.len() == 0 {
        Seq::empty()
    } else {
        seq![node_view(s[0])] + nodes_view(s.drop_first())
    }
}

pub open spec fn entity_view(e: CodeEntity) -> EntityView
    decreases e,
{
    EntityView {
        entity_type: e.entity_type@,
        start_byte: e.start_byte as int,
        end_byte: e.end_byte as int,
        order: e.order as int,
        text: e.text@,
        is_super: e.is_super,
        children: entities_view(e.children@),
    }
}

pub open spec fn entities_view(s: Seq<CodeEntity>) -> Seq<EntityView>
    decreases s,
{
    if s.len() == 0 {
        Seq::empty()
    } else {
        seq![entity_view(s[0])] + entities_view(s.drop_first())
    }
}

pub proof fn lemma_nodes_view(s: Seq<SyntaxNode>)
    ensures
        nodes_view(s).len() == s.len(),
        forall|i: int| 0 <= i < s.len() ==> nodes_view(s)[i] == node_view(s[i]),
    decreases s.len(),
{
    if s.len() > 0 {
        lemma_nodes_view(s.drop_first());
    }
}

pub proof fn lemma_entities_view(s: Seq<CodeEntity>)
    ensures
        entities_view(s).len() == s.len(),
        forall|i: int| 0 <= i < s.len() ==> entities_view(s)[i] == entity_view(s[i]),
    decreases s.len(),
{
    if s.len() > 0 {
        lemma_entities_view(s.drop_first());
    }
}

pub proof fn lemma_entities_view_push(s: Seq<CodeEntity>, e: CodeEntity)
    ensures
        entities_view(s.push(e)) == entities_view(s) + seq![entity_view(e)],
    decreases s.len(),
{
    if s.len() == 0 {
        assert(s.push(e)[0] == e);
        assert(s.push(e).drop_first() =~= Seq::<CodeEntity>::empty());
        assert(entities_view(s.push(e)) == seq![entity_view(s.push(e)[0])] + entities_view(
            s.push(e).drop_first(),
        ));
        assert(entities_view(s.push(e)) =~= entities_view(s) + seq![entity_view(e)]);
    } else {
        assert(s.push(e)[0] == s[0]);
        assert(s.push(e).drop_first() =~= s.drop_first().push(e));
        lemma_entities_view_push(s.drop_first(), e);
        assert(entities_view(s.push(e)) =~= entities_view(s) + seq![entity_view(e)]);
    }
}

/// The size of a node subtree: the number of nodes in it.
pub open spec fn node_size(n: NodeView) -> nat
    decreases n,
{
    1 + list_size(n.children)
}

/// The total size of a list of node subtrees.
pub open spec fn list_size(s: Seq<NodeView>) -> nat
    decreases s,
{
    if s.len() == 0 {
        0
    } else {
        node_size(s[0]) + list_size(s.drop_first())
    }
}

pub proof fn lemma_list_size_concat(a: Seq<NodeView>, b: Seq<NodeView>)
    ensures
        list_size(a + b) == list_size(a) + list_size(b),
    decreases a.len(),
{
    if a.len() == 0 {
        assert(a + b =~= b);
    } else {
        assert((a + b).drop_first() =~= a.drop_first() + b);
        assert((a + b)[0] == a[0]);
        lemma_list_size_concat(a.drop_first(), b);
    }
}

/// The language-specific flattening rule: in Python, a synthetic statement
/// "block" node is never materialized; its children are reparented one level
/// up, preserving order.
pub open spec fn is_flattened_block(ext: Seq<char>, n: NodeView) -> bool {
    spec_normalize_extension(ext) == "py"@ && n.kind == "block"@
}

/// The entity hierarchy extracted from a list of sibling syntax nodes.
///
/// Walking the list left to right: a Python "block" node is replaced by its
/// children in place; a node whose kind the policy retains becomes an entity
/// with the next sibling order (`start` counts from there) and its children
/// are extracted recursively as sub-entities; any other node is pruned with
/// all its descendants. `is_super` marks entities of the outermost group.
pub open spec fn spec_extract(
    nodes: Seq<NodeView>,
    ext: Seq<char>,
    policy: Seq<PolicyEntry>,
    is_super: bool,
    start: int,
) -> Seq<EntityView>
    decreases list_size(nodes),
    via spec_extract_decreases
{
    if nodes.len() == 0 {
        Seq::empty()
    } else {
        let n = nodes[0];
        let rest = nodes.drop_first();
        if is_flattened_block(ext, n) {
            spec_extract(n.children + rest, ext, policy, is_super, start)
        } else if spec_retains(policy, ext, n.kind) {
            seq![
                EntityView {
                    entity_type: n.kind,
                    start_byte: n.start_byte,
                    end_byte: n.end_byte,
                    order: start,
                    text: n.text,
                    is_super,
                    children: spec_extract(n.children, ext, policy, false, 1),
                },
            ] + spec_extract(rest, ext, policy, is_super, start + 1)
        } else {
            spec_extract(rest, ext, policy, is_super, start)
        }
    }
}

#[via_fn]
proof fn spec_extract_decreases(
    nodes: Seq<NodeView>,
    ext: Seq<char>,
    policy: Seq<PolicyEntry>,
    is_super: bool,
    start: int,
) {
    if nodes.len() > 0 {
        let n = nodes[0];
        let rest = nodes.drop_first();
        lemma_list_size_concat(n.children, rest);
        assert(list_size(nodes) == node_size(n) + list_size(rest));
    }
}

/// Splitting a sibling list splits its extraction: the right part's orders
/// continue where the left part's materialized entities end.
pub proof fn lemma_spec_extract_concat(
    a: Seq<NodeView>,
    b: Seq<NodeView>,
    ext: Seq<char>,
    policy: Seq<PolicyEntry>,
    is_super: bool,
    start: int,
)
    ensures
        spec_extract(a + b, ext, policy, is_super, start) == spec_extract(a, ext, policy, is_super, start)
            + spec_extract(
            b,
            ext,
            policy,
            is_super,
            start + spec_extract(a, ext, policy, is_super, start).len(),
        ),
    decreases list_size(a),
{
    if a.len() == 0 {
        assert(a + b =~= b);
        assert(spec_extract(a, ext, policy, is_super, start) =~= Seq::<EntityView>::empty());
        assert(spec_extract(a + b, ext, policy, is_super, start) =~= spec_extract(
            a,
            ext,
            policy,
            is_super,
            start,
        ) + spec_extract(b, ext, policy, is_super, start + 0));
    } else {
        let n = a[0];
        let rest = a.drop_first();
        assert((a + b).len() > 0);
        assert((a + b)[0] == n);
        assert((a + b).drop_first() =~= rest + b);
        assert(list_size(a) == node_size(n) + list_size(rest));
        assert(node_size(n) == 1 + list_size(n.children));
        if is_flattened_block(ext, n) {
            assert(n.children + (rest + b) =~= (n.children + rest) + b);
            lemma_list_size_concat(n.children, rest);
            lemma_spec_extract_concat(n.children + rest, b, ext, policy, is_super, start);
            assert(spec_extract(a, ext, policy, is_super, start) == spec_extract(
                n.children + rest,
                ext,
                policy,
                is_super,
                start,
            ));
        } else if spec_retains(policy, ext, n.kind) {
            lemma_spec_extract_concat(rest, b, ext, policy, is_super, start + 1);
            assert(spec_extract(a + b, ext, policy, is_super, start) =~= spec_extract(
                a,
                ext,
                policy,
                is_super,
                start,
            ) + spec_extract(
                b,
                ext,
                policy,
                is_super,
                start + spec_extract(a, ext, policy, is_super, start).len(),
            ));
        } else {
            lemma_spec_extract_concat(rest, b, ext, policy, is_super, start);
        }
    }
}

pub proof fn lemma_list_size_singleton(x: NodeView)
    ensures
        list_size(seq![x]) == node_size(x),
{
    assert(seq![x][0] == x);
    assert(seq![x].drop_first() =~= Seq::<NodeView>::empty());
    assert(list_size(seq![x].drop_first()) == 0);
}

/// What one syntax node contributes to its sibling group: nothing when it is
/// pruned, its flattened children when it is a Python block, itself when it
/// is retained.
pub proof fn lemma_spec_extract_singleton(
    n: NodeView,
    ext: Seq<char>,
    policy: Seq<PolicyEntry>,
    is_super: bool,
    start: int,
)
    ensures
        is_flattened_block(ext, n) ==> spec_extract(seq![n], ext, policy, is_super, start)
            == spec_extract(n.children, ext, policy, is_super, start),
        !is_flattened_block(ext, n) && spec_retains(policy, ext, n.kind) ==> spec_extract(
            seq![n],
            ext,
            policy,
            is_super,
            start,
        ) == seq![
            EntityView {
                entity_type: n.kind,
                start_byte: n.start_byte,
                end_byte: n.end_byte,
                order: start,
                text: n.text,
                is_super,
                children: spec_extract(n.children, ext, policy, false, 1),
            },
        ],
        !is_flattened_block(ext, n) && !spec_retains(policy, ext, n.kind) ==> spec_extract(
            seq![n],
            ext,
            policy,
            is_super,
            start,
        ) == Seq::<EntityView>::empty(),
{
    let s = seq![n];
    assert(s[0] == n);
    assert(s.drop_first() =~= Seq::<NodeView>::empty());
    if is_flattened_block(ext, n) {
        assert(n.children + s.drop_first() =~= n.children);
    } else if spec_retains(policy, ext, n.kind) {
        let ev = EntityView {
            entity_type: n.kind,
            start_byte: n.start_byte,
            end_byte: n.end_byte,
            order: start,
            text: n.text,
            is_super,
            children: spec_extract(n.children, ext, policy, false, 1),
        };
        assert(spec_extract(s.drop_first(), ext, policy, is_super, start + 1)
            =~= Seq::<EntityView>::empty());
        assert(seq![ev] + Seq::<EntityView>::empty() =~= seq![ev]);
    } else {
        assert(spec_extract(s.drop_first(), ext, policy, is_super, start)
            =~= Seq::<EntityView>::empty());
    }
}

pub proof fn lemma_list_size_take_le(s: Seq<NodeView>, k: int)
    requires
        0 <= k <= s.len(),
    ensures
        list_size(s.take(k)) <= list_size(s),
{
    assert(s =~= s.take(k) + s.skip(k));
    lemma_list_size_concat(s.take(k), s.skip(k));
}

/// An extracted sibling group has at most one entity per node of the group's
/// subtrees.
pub proof fn lemma_extract_len_le(
    nodes: Seq<NodeView>,
    ext: Seq<char>,
    policy: Seq<PolicyEntry>,
    is_super: bool,
    start: int,
)
    ensures
        spec_extract(nodes, ext, policy, is_super, start).len() <= list_size(nodes),
    decreases list_size(nodes),
{
    if nodes.len() > 0 {
        let n = nodes[0];
        let rest = nodes.drop_first();
        assert(list_size(nodes) == node_size(n) + list_size(rest));
        assert(node_size(n) == 1 + list_size(n.children));
        if is_flattened_block(ext, n) {
            lemma_list_size_concat(n.children, rest);
            lemma_extract_len_le(n.children + rest, ext, policy, is_super, start);
        } else if spec_retains(policy, ext, n.kind) {
            lemma_extract_len_le(rest, ext, policy, is_super, start + 1);
        } else {
            lemma_extract_len_le(rest, ext, policy, is_super, start);
        }
    }
}

/// Append to an accumulated sibling group the entities that one syntax node
/// contributes: none when it is pruned, its flattened children when it is a
/// Python block, itself (with the next order) when it is retained.
fn process_entity(
    node: &SyntaxNode,
    ext: &String,
    policy: &RetentionPolicy,
    is_super: bool,
    acc: &mut Vec<CodeEntity>,
)
    requires
        entities_view(old(acc)@).len() + node_size(node_view(*node)) <= usize::MAX,
    ensures
        entities_view(final(acc)@) == entities_view(old(acc)@) + spec_extract(
            seq![node_view(*node)],
            ext@,
            policy.entries@,
            is_super,
            entities_view(old(acc)@).len() as int + 1,
        ),
    decreases *node,
{
    let ghost nv = node_view(*node);
    let ghost old_len = entities_view(old(acc)@).len() as int;
    let ghost target = spec_extract(
        seq![nv],
        ext@,
        policy.entries@,
        is_super,
        old_len + 1,
    );
    proof {
        lemma_list_size_singleton(nv);
        lemma_spec_extract_singleton(nv, ext@, policy.entries@, is_super, old_len + 1);
    }
    let ext_norm = normalize_extension(ext);
    let is_block = ext_norm == String::from_str("py") && node.kind == String::from_str("block");
    assert(is_block == is_flattened_block(ext@, nv));
    if is_block {
        let ghost cs = nv.children;
        proof {
            lemma_nodes_view(node.children@);
            assert(nv.children + Seq::<NodeView>::empty() =~= cs);
            assert(target == spec_extract(cs, ext@, policy.entries@, is_super, old_len + 1));
            assert(cs.take(0) =~= Seq::<NodeView>::empty());
        }
        let mut i: usize = 0;
        while i < node.children.len()
            invariant
                0 <= i <= node.children.len(),
                cs == nodes_view(node.children@),
                cs.len() == node.children@.len(),
                forall|j: int| 0 <= j < cs.len() ==> cs[j] == node_view(node.children@[j]),
                old_len == entities_view(old(acc)@).len(),
                old_len + node_size(nv) <= usize::MAX,
                node_size(nv) == 1 + list_size(cs),
                entities_view(acc@) == entities_view(old(acc)@) + spec_extract(
                    cs.take(i as int),
                    ext@,
                    policy.entries@,
                    is_super,
                    old_len + 1,
                ),
            decreases node.children@.len() - i,
        {
            proof {
                lemma_entities_view(acc@);
                lemma_extract_len_le(cs.take(i as int), ext@, policy.entries@, is_super, old_len + 1);
                assert(cs.take(i as int + 1) =~= cs.take(i as int) + seq![cs[i as int]]);
                lemma_list_size_concat(cs.take(i as int), seq![cs[i as int]]);
                lemma_list_size_singleton(cs[i as int]);
                lemma_list_size_take_le(cs, i as int + 1);
                assert(entities_view(acc@).len() + node_size(cs[i as int]) <= usize::MAX);
                lemma_spec_extract_concat(
                    cs.take(i as int),
                    seq![cs[i as int]],
                    ext@,
                    policy.entries@,
                    is_super,
                    old_len + 1,
                );
            }
            process_entity(&node.children[i], ext, policy, is_super, acc);
            i = i + 1;
        }
        proof {
            assert(cs.take(node.children@.len() as int) =~= cs);
        }
    } else {
        let retained = policy.retains(ext, &node.kind);
        assert(retained == spec_retains(policy.entries@, ext@, nv.kind));
        if retained {
            proof {
                lemma_entities_view(acc@);
            }
            let children = extract_entities(&node.children, ext, policy, false);
            let order = acc.len() + 1;
            let ent = CodeEntity {
                entity_type: node.kind.clone(),
                start_byte: node.start_byte,
                end_byte: node.end_byte,
                order,
                text: node.text.clone(),
                is_super,
                children,
            };
            proof {
                lemma_entities_view_push(acc@, ent);
            }
            acc.push(ent);
            proof {
                assert(entity_view(ent) == target[0]);
                assert(entities_view(acc@) =~= entities_view(old(acc)@) + target);
            }
        } else {
            proof {
                assert(entities_view(acc@) =~= entities_view(old(acc)@) + target);
            }
        }
    }
}

/// Extract the retained entity hierarchy of one sibling group of syntax
/// nodes; orders are assigned 1..N over the group. A file's outermost group
/// is extracted with `is_super` true; all deeper groups with false.
pub fn extract_entities(
    nodes: &Vec<SyntaxNode>,
    ext: &String,
    policy: &RetentionPolicy,
    is_super: bool,
) -> (res: Vec<CodeEntity>)
    requires
        list_size(nodes_view(nodes@)) <= usize::MAX,
    ensures
        entities_view(res@) == spec_extract(nodes_view(nodes@), ext@, policy.entries@, is_super, 1),
    decreases *nodes,
{
    let ghost vs = nodes_view(nodes@);
    let mut acc: Vec<CodeEntity> = Vec::new();
    proof {
        lemma_nodes_view(nodes@);
        assert(vs.take(0) =~= Seq::<NodeView>::empty());
        assert(acc@ =~= Seq::<CodeEntity>::empty());
    }
    let mut i: usize = 0;
    while i < nodes.len()
        invariant
            0 <= i <= nodes.len(),
            vs == nodes_view(nodes@),
            vs.len() == nodes@.len(),
            forall|j: int| 0 <= j < vs.len() ==> vs[j] == node_view(nodes@[j]),
            list_size(vs) <= usize::MAX,
            entities_view(acc@) == spec_extract(vs.take(i as int), ext@, policy.entries@, is_super, 1),
        decreases nodes@.len() - i,
    {
        proof {
            lemma_entities_view(acc@);
            lemma_extract_len_le(vs.take(i as int), ext@, policy.entries@, is_super, 1);
            assert(vs.take(i as int + 1) =~= vs.take(i as int) + seq![vs[i as int]]);
            lemma_list_size_concat(vs.take(i as int), seq![vs[i as int]]);
            lemma_list_size_singleton(vs[i as int]);
            lemma_list_size_take_le(vs, i as int + 1);
            assert(entities_view(acc@).len() + node_size(vs[i as int]) <= usize::MAX);
            lemma_spec_extract_concat(
                vs.take(i as int),
                seq![vs[i as int]],
                ext@,
                policy.entries@,
                is_super,
                1,
            );
        }
        process_entity(&nodes[i], ext, policy, is_super, &mut acc);
        i = i + 1;
    }
    proof {
        assert(vs.take(nodes@.len() as int) =~= vs);
    }
    acc
}

/// Sibling orders are contiguous from `start`: the i-th entity of the group
/// has order start + i, and every nested sibling group restarts at 1.
pub open spec fn well_ordered_from(es: Seq<EntityView>, start: int) -> bool
    decreases es,
{
    if es.len() == 0 {
        true
    } else {
        es[0].order == start && well_ordered_from(es[0].children, 1) && well_ordered_from(
            es.drop_first(),
            start + 1,
        )
    }
}

/// Entities of a group carry the group's super flag; every deeper group is
/// sub. Only a file's immediate entities are ever super.
pub open spec fn flags_ok(es: Seq<EntityView>, is_super: bool) -> bool
    decreases es,
{
    if es.len() == 0 {
        true
    } else {
        es[0].is_super == is_super && flags_ok(es[0].children, false) && flags_ok(
            es.drop_first(),
            is_super,
        )
    }
}

/// Every sibling group that extraction produces is well ordered from its
/// start, however the group was assembled (flattening included), and carries
/// the right super flags.
pub proof fn lemma_extract_well_formed(
    nodes: Seq<NodeView>,
    ext: Seq<char>,
    policy: Seq<PolicyEntry>,
    is_super: bool,
    start: int,
)
    ensures
        well_ordered_from(spec_extract(nodes, ext, policy, is_super, start), start),
        flags_ok(spec_extract(nodes, ext, policy, is_super, start), is_super),
    decreases list_size(nodes),
{
    if nodes.len() > 0 {
        let n = nodes[0];
        let rest = nodes.drop_first();
        assert(list_size(nodes) == node_size(n) + list_size(rest));
        assert(node_size(n) == 1 + list_size(n.children));
        if is_flattened_block(ext, n) {
            lemma_list_size_concat(n.children, rest);
            lemma_extract_well_formed(n.children + rest, ext, policy, is_super, start);
        } else if spec_retains(policy, ext, n.kind) {
            lemma_extract_well_formed(n.children, ext, policy, false, 1);
            lemma_extract_well_formed(rest, ext, policy, is_super, start + 1);
            let es = spec_extract(nodes, ext, policy, is_super, start);
            let tail = spec_extract(rest, ext, policy, is_super, start + 1);
            assert(es[0].order == start);
            assert(es[0].children == spec_extract(n.children, ext, policy, false, 1));
            assert(es.drop_first() =~= tail);
        } else {
            lemma_extract_well_formed(rest, ext, policy, is_super, start);
        }
    }
}

/// In a well-ordered sibling group of size N started at `start`, the orders
/// read start, start + 1, ..., start + N - 1: no duplicates, no gaps. A
/// file's groups start at 1, so their orders are exactly 1..N.
pub proof fn lemma_well_ordered_orders(es: Seq<EntityView>, start: int)
    requires
        well_ordered_from(es, start),
    ensures
        forall|i: int| 0 <= i < es.len() ==> #[trigger] es[i].order == start + i,
    decreases es.len(),
{
    if es.len() > 0 {
        lemma_well_ordered_orders(es.drop_first(), start + 1);
        assert forall|i: int| 0 <= i < es.len() implies #[trigger] es[i].order == start + i by {
            if i > 0 {
                assert(es.drop_first()[i - 1] == es[i]);
            }
        }
    }
}

/// Extraction is deterministic: re-extracting a file whose content is
/// unchanged (equal node trees and extension, same policy) yields an
/// identical entity hierarchy — kinds, spans, orders and super flags.
pub proof fn lemma_extract_deterministic(
    n1: Seq<SyntaxNode>,
    n2: Seq<SyntaxNode>,
    ext1: Seq<char>,
    ext2: Seq<char>,
    policy: Seq<PolicyEntry>,
    is_super: bool,
)
    requires
        nodes_view(n1) == nodes_view(n2),
        ext1 == ext2,
    ensures
        spec_extract(nodes_view(n1), ext1, policy, is_super, 1) == spec_extract(
            nodes_view(n2),
            ext2,
            policy,
            is_super,
            1,
        ),
{
}

/// Extract a file's entities from the children of its root syntax node:
/// these are the file's super entities, the only ones embedded.
pub fn ingest_entities(
    children: &Vec<SyntaxNode>,
    ext: &String,
    policy: &RetentionPolicy,
) -> (res: Vec<CodeEntity>)
    requires
        list_size(nodes_view(children@)) <= usize::MAX,
    ensures
        entities_view(res@) == spec_extract(nodes_view(children@), ext@, policy.entries@, true, 1),
{
    extract_entities(children, ext, policy, true)
}

} // verus!
