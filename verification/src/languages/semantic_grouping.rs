//! Rules for grouping a syntax node with the nodes that belong to it, such as
//! the attributes and comments above an item.
use vstd::prelude::*;
use crate::syntax::{SyntaxNode, SyntaxTree, next_sibling_from};
use crate::item::chars_are;
use crate::text::chars_of;

verus! {

/// A rule for grouping related nodes into one logical unit.
#[derive(Debug, Clone)]
pub struct GroupingRule {
    /// The primary node type the rule applies to (e.g. `function_item`).
    pub target_node_type: String,
    /// Types of nodes that can precede the target and belong to the group.
    pub preceding_node_types: Vec<String>,
    /// Types of nodes that can follow the target and belong to the group.
    pub following_node_types: Vec<String>,
    /// How many non-matching siblings may be skipped while looking for
    /// preceding nodes.
    pub max_gap_nodes: usize,
    /// Whether only consecutive preceding nodes count.
    pub require_consecutive: bool,
}

/// The texts of a list of strings.
pub open spec fn texts(v: Seq<String>) -> Seq<Seq<char>> {
    v.map_values(|s: String| s@)
}

/// Copies of the given names.
fn owned_names(types: Vec<&str>) -> (v: Vec<String>)
    ensures
        texts(v@) == types@.map_values(|s: &str| s@),
{
    let mut v: Vec<String> = Vec::new();
    let mut i: usize = 0;
    while i < types.len()
        invariant
            i <= types@.len(),
            texts(v@) == types@.map_values(|s: &str| s@).take(i as int),
        decreases types@.len() - i,
    {
        let ghost before = v@;
        let s = types[i].to_string();
        v.push(s);
        assert(texts(v@) =~= texts(before).push(s@));
        assert(types@.map_values(|s: &str| s@).take(i + 1) =~= types@.map_values(|s: &str| s@).take(i as int).push(types@[i as int]@));
        i += 1;
    }
    assert(types@.map_values(|s: &str| s@).take(i as int) =~= types@.map_values(|s: &str| s@));
    v
}

impl GroupingRule {
    /// A rule for `target_node_type` with no grouped neighbours, no gaps
    /// allowed, consecutive only.
    pub fn new(target_node_type: &str) -> (r: Self)
        ensures
            r.target_node_type@ == target_node_type@,
            r.preceding_node_types@.len() == 0,
            r.following_node_types@.len() == 0,
            r.max_gap_nodes == 0,
            r.require_consecutive,
    {
        GroupingRule {
            target_node_type: target_node_type.to_string(),
            preceding_node_types: Vec::new(),
            following_node_types: Vec::new(),
            max_gap_nodes: 0,
            require_consecutive: true,
        }
    }

    /// The same rule with these preceding types.
    pub fn with_preceding_types(self, types: Vec<&str>) -> (r: Self)
        ensures
            texts(r.preceding_node_types@) == types@.map_values(|s: &str| s@),
            r.target_node_type == self.target_node_type,
            r.following_node_types == self.following_node_types,
            r.max_gap_nodes == self.max_gap_nodes,
            r.require_consecutive == self.require_consecutive,
    {
        GroupingRule { preceding_node_types: owned_names(types), ..self }
    }

    /// The same rule with these following types.
    pub fn with_following_types(self, types: Vec<&str>) -> (r: Self)
        ensures
            texts(r.following_node_types@) == types@.map_values(|s: &str| s@),
            r.target_node_type == self.target_node_type,
            r.preceding_node_types == self.preceding_node_types,
            r.max_gap_nodes == self.max_gap_nodes,
            r.require_consecutive == self.require_consecutive,
    {
        GroupingRule { following_node_types: owned_names(types), ..self }
    }

    /// The same rule allowing `max_gap` skipped siblings.
    pub fn with_max_gap_nodes(self, max_gap: usize) -> (r: Self)
        ensures
            r.max_gap_nodes == max_gap,
            r.target_node_type == self.target_node_type,
            r.preceding_node_types == self.preceding_node_types,
            r.following_node_types == self.following_node_types,
            r.require_consecutive == self.require_consecutive,
    {
        GroupingRule { max_gap_nodes: max_gap, ..self }
    }

    /// The same rule counting non-consecutive preceding nodes too.
    pub fn allow_non_consecutive(self) -> (r: Self)
        ensures
            !r.require_consecutive,
            r.target_node_type == self.target_node_type,
            r.preceding_node_types == self.preceding_node_types,
            r.following_node_types == self.following_node_types,
            r.max_gap_nodes == self.max_gap_nodes,
    {
        GroupingRule { require_consecutive: false, ..self }
    }
}

/// Kinds that separate nodes without breaking a group.
pub open spec fn is_gap_kind(k: Seq<char>) -> bool {
    k == "whitespace"@ || k == "newline"@ || k == "\n"@ || k == " "@ || k == "\t"@
}

/// Whether `k` is one of `types`.
pub open spec fn listed(types: Seq<Seq<char>>, k: Seq<char>) -> bool {
    exists|i: int| 0 <= i < types.len() && types[i] == k
}

/// The nodes collected walking back from `cur` over its previous siblings,
/// nearest first: listed kinds are taken (resetting the gap count); gap
/// kinds and, when gaps are allowed, other kinds count as gaps; the walk
/// stops at a non-listed kind when only consecutive nodes count, or when the
/// gap count passes the maximum.
pub open spec fn walk_back(t: Seq<SyntaxNode>, types: Seq<Seq<char>>, max_gap: nat, consecutive: bool, cur: int, gap: nat) -> Seq<usize>
    decreases cur,
{
    if 0 <= cur < t.len() {
        match t[cur].prev_sibling {
            None => seq![],
            Some(p) => if p >= cur {
                seq![]
            } else {
                let k = t[p as int].kind@;
                if listed(types, k) {
                    seq![p] + walk_back(t, types, max_gap, consecutive, p as int, 0)
                } else if is_gap_kind(k) {
                    if gap + 1 > max_gap && consecutive {
                        seq![]
                    } else {
                        walk_back(t, types, max_gap, consecutive, p as int, gap + 1)
                    }
                } else if consecutive || gap + 1 > max_gap {
                    seq![]
                } else {
                    walk_back(t, types, max_gap, consecutive, p as int, gap + 1)
                }
            },
        }
    } else {
        seq![]
    }
}

/// The same walk forwards over the next siblings, in source order.
pub open spec fn walk_forward(t: Seq<SyntaxNode>, types: Seq<Seq<char>>, max_gap: nat, consecutive: bool, cur: int, gap: nat) -> Seq<usize>
    decreases t.len() - cur,
{
    if 0 <= cur < t.len() {
        match next_sibling_from(t, cur, cur + 1) {
            None => seq![],
            Some(n) => if n <= cur || n >= t.len() {
                seq![]
            } else {
                let k = t[n].kind@;
                if listed(types, k) {
                    seq![n as usize] + walk_forward(t, types, max_gap, consecutive, n, 0)
                } else if is_gap_kind(k) {
                    if gap + 1 > max_gap && consecutive {
                        seq![]
                    } else {
                        walk_forward(t, types, max_gap, consecutive, n, gap + 1)
                    }
                } else if consecutive || gap + 1 > max_gap {
                    seq![]
                } else {
                    walk_forward(t, types, max_gap, consecutive, n, gap + 1)
                }
            },
        }
    } else {
        seq![]
    }
}

fn is_listed(types: &Vec<String>, k: &str) -> (b: bool)
    ensures
        b == listed(texts(types@), k@),
{
    let kc = chars_of(k);
    let mut i: usize = 0;
    while i < types.len()
        invariant
            i <= types@.len(),
            kc@ == k@,
            forall|j: int| 0 <= j < i ==> texts(types@)[j] != k@,
        decreases types@.len() - i,
    {
        if crate::item::chars_equal(&chars_of(types[i].as_str()), &kc) {
            assert(texts(types@)[i as int] == k@);
            return true;
        }
        i += 1;
    }
    false
}

fn is_gap(k: &str) -> (b: bool)
    ensures
        b == is_gap_kind(k@),
{
    let c = chars_of(k);
    chars_are(&c, "whitespace") || chars_are(&c, "newline") || chars_are(&c, "\n") || chars_are(&c, " ")
        || chars_are(&c, "\t")
}

fn walk_back_exec(t: &SyntaxTree, rule: &GroupingRule, cur: usize, gap: usize) -> (v: Vec<usize>)
    requires
        gap + cur < usize::MAX,
    ensures
        v@ == walk_back(t.nodes@, texts(rule.preceding_node_types@), rule.max_gap_nodes as nat, rule.require_consecutive, cur as int, gap as nat),
    decreases cur,
{
    if cur >= t.nodes.len() {
        return Vec::new();
    }
    match t.nodes[cur].prev_sibling {
        None => Vec::new(),
        Some(p) => {
            if p >= cur {
                return Vec::new();
            }
            let k = t.nodes[p].kind.as_str();
            if is_listed(&rule.preceding_node_types, k) {
                let rest = walk_back_exec(t, rule, p, 0);
                let mut v: Vec<usize> = Vec::new();
                v.push(p);
                let mut r = rest;
                let ghost a = v@;
                let ghost b = r@;
                v.append(&mut r);
                assert(v@ =~= seq![p] + b);
                v
            } else if is_gap(k) {
                if gap >= rule.max_gap_nodes && rule.require_consecutive {
                    Vec::new()
                } else {
                    walk_back_exec(t, rule, p, gap + 1)
                }
            } else if rule.require_consecutive || gap >= rule.max_gap_nodes {
                Vec::new()
            } else {
                walk_back_exec(t, rule, p, gap + 1)
            }
        },
    }
}

fn walk_forward_exec(t: &SyntaxTree, rule: &GroupingRule, cur: usize, gap: usize) -> (v: Vec<usize>)
    requires
        gap + (t.nodes@.len() - cur) <= usize::MAX,
        cur <= t.nodes@.len(),
    ensures
        v@ == walk_forward(t.nodes@, texts(rule.following_node_types@), rule.max_gap_nodes as nat, rule.require_consecutive, cur as int, gap as nat),
    decreases t.nodes@.len() - cur,
{
    if cur >= t.nodes.len() {
        return Vec::new();
    }
    match t.next_sibling(cur) {
        None => Vec::new(),
        Some(n) => {
            if n <= cur || n >= t.nodes.len() {
                return Vec::new();
            }
            let k = t.nodes[n].kind.as_str();
            if is_listed(&rule.following_node_types, k) {
                let mut r = walk_forward_exec(t, rule, n, 0);
                let mut v: Vec<usize> = Vec::new();
                v.push(n);
                let ghost b = r@;
                v.append(&mut r);
                assert(v@ =~= seq![n] + b);
                v
            } else if is_gap(k) {
                if gap >= rule.max_gap_nodes && rule.require_consecutive {
                    Vec::new()
                } else {
                    walk_forward_exec(t, rule, n, gap + 1)
                }
            } else if rule.require_consecutive || gap >= rule.max_gap_nodes {
                Vec::new()
            } else {
                walk_forward_exec(t, rule, n, gap + 1)
            }
        },
    }
}

/// A node grouped with the nodes that belong to it.
#[derive(Debug)]
pub struct SemanticGroup {
    /// The primary node.
    pub primary_node: usize,
    /// Nodes before the primary node that belong to the group, in source
    /// order.
    pub preceding_nodes: Vec<usize>,
    /// Nodes after the primary node that belong to the group, in source
    /// order.
    pub following_nodes: Vec<usize>,
}

impl SemanticGroup {
    /// A group of just `primary_node`.
    pub fn new(primary_node: usize) -> (g: Self)
        ensures
            g.primary_node == primary_node,
            g.preceding_nodes@.len() == 0,
            g.following_nodes@.len() == 0,
    {
        SemanticGroup { primary_node, preceding_nodes: Vec::new(), following_nodes: Vec::new() }
    }

    /// The byte range of the whole group: from the first preceding node (or
    /// the primary node) to the last following node (or the primary node).
    pub fn byte_range(&self, t: &SyntaxTree) -> (r: (usize, usize))
        requires
            self.primary_node < t.nodes@.len(),
            forall|i: int| 0 <= i < self.preceding_nodes@.len() ==> (#[trigger] self.preceding_nodes@[i]) < t.nodes@.len(),
            forall|i: int| 0 <= i < self.following_nodes@.len() ==> (#[trigger] self.following_nodes@[i]) < t.nodes@.len(),
        ensures
            r.0 == (if self.preceding_nodes@.len() > 0 {
                t.nodes@[self.preceding_nodes@[0] as int].start
            } else {
                t.nodes@[self.primary_node as int].start
            }),
            r.1 == (if self.following_nodes@.len() > 0 {
                t.nodes@[self.following_nodes@.last() as int].end
            } else {
                t.nodes@[self.primary_node as int].end
            }),
    {
        let start = if self.preceding_nodes.len() > 0 {
            t.nodes[self.preceding_nodes[0]].start
        } else {
            t.nodes[self.primary_node].start
        };
        let end = if self.following_nodes.len() > 0 {
            t.nodes[self.following_nodes[self.following_nodes.len() - 1]].end
        } else {
            t.nodes[self.primary_node].end
        };
        (start, end)
    }

    /// Every node of the group, in source order.
    pub fn all_nodes(&self) -> (v: Vec<usize>)
        ensures
            v@ == self.preceding_nodes@.push(self.primary_node) + self.following_nodes@,
    {
        let mut v = crate::editor::edit::copy_indices(&self.preceding_nodes);
        v.push(self.primary_node);
        let mut f = crate::editor::edit::copy_indices(&self.following_nodes);
        v.append(&mut f);
        v
    }

    /// Whether anything precedes the primary node in the group.
    pub fn has_preceding_elements(&self) -> (b: bool)
        ensures
            b == (self.preceding_nodes@.len() > 0),
    {
        self.preceding_nodes.len() > 0
    }

    /// Whether anything follows the primary node in the group.
    pub fn has_following_elements(&self) -> (b: bool)
        ensures
            b == (self.following_nodes@.len() > 0),
    {
        self.following_nodes.len() > 0
    }
}

/// The first rule, among the first `n`, for the kind `k`.
pub open spec fn rule_for(rules: Seq<GroupingRule>, k: Seq<char>, n: int) -> Option<int>
    decreases n,
{
    if n <= 0 {
        None
    } else {
        match rule_for(rules, k, n - 1) {
            Some(i) => Some(i),
            None => if rules[n - 1].target_node_type@ == k {
                Some(n - 1)
            } else {
                None
            },
        }
    }
}

proof fn lemma_rule_for_stable(rules: Seq<GroupingRule>, k: Seq<char>, n: int, m: int)
    requires
        n <= m,
        rule_for(rules, k, n) is Some,
    ensures
        rule_for(rules, k, m) == rule_for(rules, k, n),
    decreases m - n,
{
    if n < m {
        lemma_rule_for_stable(rules, k, n, m - 1);
    }
}

/// The group of `node` under `rules`: with no rule for its kind, or no
/// parent, the node alone; otherwise the nodes the rule's walks collect.
pub open spec fn group_spec(t: Seq<SyntaxNode>, rules: Seq<GroupingRule>, node: int) -> (Seq<usize>, Seq<usize>) {
    match rule_for(rules, t[node].kind@, rules.len() as int) {
        None => (seq![], seq![]),
        Some(i) => {
            let r = rules[i];
            let has_parent = t[node].parent is Some;
            (
                if r.preceding_node_types@.len() > 0 && has_parent {
                    walk_back(t, texts(r.preceding_node_types@), r.max_gap_nodes as nat, r.require_consecutive, node, 0).reverse()
                } else {
                    seq![]
                },
                if r.following_node_types@.len() > 0 && has_parent {
                    walk_forward(t, texts(r.following_node_types@), r.max_gap_nodes as nat, r.require_consecutive, node, 0)
                } else {
                    seq![]
                },
            )
        },
    }
}

fn reversed(v: Vec<usize>) -> (r: Vec<usize>)
    ensures
        r@ == v@.reverse(),
{
    let mut r: Vec<usize> = Vec::new();
    let mut i: usize = v.len();
    while i > 0
        invariant
            i <= v@.len(),
            r@ == v@.skip(i as int).reverse(),
        decreases i,
    {
        i -= 1;
        r.push(v[i]);
        assert(r@ =~= v@.skip(i as int).reverse());
    }
    assert(v@.skip(0) =~= v@);
    r
}

/// Find the semantic group of `node` under `rules` (see [`group_spec`]).
pub fn find_semantic_group(t: &SyntaxTree, rules: &Vec<GroupingRule>, node: usize) -> (g: SemanticGroup)
    requires
        node < t.nodes@.len(),
    ensures
        g.primary_node == node,
        (g.preceding_nodes@, g.following_nodes@) == group_spec(t.nodes@, rules@, node as int),
{
    let kc = chars_of(t.nodes[node].kind.as_str());
    let mut i: usize = 0;
    while i < rules.len()
        invariant
            i <= rules@.len(),
            node < t.nodes@.len(),
            kc@ == t.nodes@[node as int].kind@,
            rule_for(rules@, t.nodes@[node as int].kind@, i as int) is None,
        decreases rules@.len() - i,
    {
        if crate::item::chars_equal(&chars_of(rules[i].target_node_type.as_str()), &kc) {
            proof {
                lemma_rule_for_stable(rules@, t.nodes@[node as int].kind@, i + 1, rules@.len() as int);
            }
            let rule = &rules[i];
            let _count = t.nodes.len();
            let has_parent = t.nodes[node].parent.is_some();
            let preceding = if rule.preceding_node_types.len() > 0 && has_parent {
                reversed(walk_back_exec(t, rule, node, 0))
            } else {
                Vec::new()
            };
            let following = if rule.following_node_types.len() > 0 && has_parent {
                walk_forward_exec(t, rule, node, 0)
            } else {
                Vec::new()
            };
            return SemanticGroup { primary_node: node, preceding_nodes: preceding, following_nodes: following };
        }
        i += 1;
    }
    SemanticGroup::new(node)
}

/// The range a replacement replaces: the whole group when both the group and
/// the replacement have preceding elements, else just the primary node.
pub open spec fn replacement_range_spec(t: Seq<SyntaxNode>, g: (Seq<usize>, Seq<usize>), node: int, replacement_has_preceding: bool) -> (int, int) {
    if replacement_has_preceding && g.0.len() > 0 {
        (
            t[g.0[0] as int].start as int,
            if g.1.len() > 0 {
                t[g.1.last() as int].end as int
            } else {
                t[node].end as int
            },
        )
    } else {
        (t[node].start as int, t[node].end as int)
    }
}

proof fn lemma_walk_back_bounds(t: Seq<SyntaxNode>, types: Seq<Seq<char>>, max_gap: nat, consecutive: bool, cur: int, gap: nat)
    ensures
        forall|i: int| 0 <= i < walk_back(t, types, max_gap, consecutive, cur, gap).len()
            ==> (#[trigger] walk_back(t, types, max_gap, consecutive, cur, gap)[i]) < t.len(),
    decreases cur,
{
    if 0 <= cur < t.len() {
        match t[cur].prev_sibling {
            None => {},
            Some(p) => if p < cur {
                lemma_walk_back_bounds(t, types, max_gap, consecutive, p as int, 0);
                lemma_walk_back_bounds(t, types, max_gap, consecutive, p as int, gap + 1);
                let w = walk_back(t, types, max_gap, consecutive, cur, gap);
                let r0 = walk_back(t, types, max_gap, consecutive, p as int, 0);
                if listed(types, t[p as int].kind@) {
                    assert(w == seq![p] + r0);
                    assert forall|i: int| 0 <= i < w.len() implies (#[trigger] w[i]) < t.len() by {
                        if i > 0 {
                            assert(w[i] == r0[i - 1]);
                        }
                    }
                } else {
                    let r1 = walk_back(t, types, max_gap, consecutive, p as int, gap + 1);
                    assert(w == r1 || w == Seq::<usize>::empty());
                    assert forall|i: int| 0 <= i < w.len() implies (#[trigger] w[i]) < t.len() by {
                        if w == r1 {
                            assert(w[i] == r1[i]);
                        }
                    }
                }
            },
        }
    }
}

proof fn lemma_walk_forward_bounds(t: Seq<SyntaxNode>, types: Seq<Seq<char>>, max_gap: nat, consecutive: bool, cur: int, gap: nat)
    ensures
        forall|i: int| 0 <= i < walk_forward(t, types, max_gap, consecutive, cur, gap).len()
            ==> (#[trigger] walk_forward(t, types, max_gap, consecutive, cur, gap)[i]) < t.len(),
    decreases t.len() - cur,
{
    if 0 <= cur < t.len() {
        match next_sibling_from(t, cur, cur + 1) {
            None => {},
            Some(n) => if cur < n < t.len() {
                lemma_walk_forward_bounds(t, types, max_gap, consecutive, n, 0);
                lemma_walk_forward_bounds(t, types, max_gap, consecutive, n, gap + 1);
                let w = walk_forward(t, types, max_gap, consecutive, cur, gap);
                let r0 = walk_forward(t, types, max_gap, consecutive, n, 0);
                if listed(types, t[n].kind@) {
                    assert(w == seq![n as usize] + r0);
                    assert forall|i: int| 0 <= i < w.len() implies (#[trigger] w[i]) < t.len() by {
                        if i > 0 {
                            assert(w[i] == r0[i - 1]);
                        }
                    }
                } else {
                    let r1 = walk_forward(t, types, max_gap, consecutive, n, gap + 1);
                    assert(w == r1 || w == Seq::<usize>::empty());
                    assert forall|i: int| 0 <= i < w.len() implies (#[trigger] w[i]) < t.len() by {
                        if w == r1 {
                            assert(w[i] == r1[i]);
                        }
                    }
                }
            },
        }
    }
}

/// Every node of a group is a node of the table.
pub proof fn lemma_group_bounds(t: Seq<SyntaxNode>, rules: Seq<GroupingRule>, node: int, pre: Seq<usize>, fol: Seq<usize>)
    requires
        (pre, fol) == group_spec(t, rules, node),
    ensures
        forall|i: int| 0 <= i < pre.len() ==> (#[trigger] pre[i]) < t.len(),
        forall|i: int| 0 <= i < fol.len() ==> (#[trigger] fol[i]) < t.len(),
{
    match rule_for(rules, t[node].kind@, rules.len() as int) {
        None => {},
        Some(k) => {
            let r = rules[k];
            lemma_walk_back_bounds(t, texts(r.preceding_node_types@), r.max_gap_nodes as nat, r.require_consecutive, node, 0);
            lemma_walk_forward_bounds(t, texts(r.following_node_types@), r.max_gap_nodes as nat, r.require_consecutive, node, 0);
            let b = walk_back(t, texts(r.preceding_node_types@), r.max_gap_nodes as nat, r.require_consecutive, node, 0);
            assert forall|i: int| 0 <= i < b.reverse().len() implies (#[trigger] b.reverse()[i]) < t.len() by {
                assert(b.reverse()[i] == b[b.len() - 1 - i]);
            }
        },
    }
}

/// The range an insertion goes to: the start of the whole group when
/// inserting before, else its end, as an empty range.
pub open spec fn insertion_range_spec(t: Seq<SyntaxNode>, g: (Seq<usize>, Seq<usize>), node: int, insert_before: bool) -> (int, int) {
    let at = if insert_before {
        if g.0.len() > 0 {
            t[g.0[0] as int].start as int
        } else {
            t[node].start as int
        }
    } else if g.1.len() > 0 {
        t[g.1.last() as int].end as int
    } else {
        t[node].end as int
    };
    (at, at)
}

/// The byte range a replacement of `node` replaces, given whether the
/// replacement itself brings preceding elements (attributes, comments):
/// the whole group when both it and the group have them, else the node
/// alone, so that the node's own decorations are kept.
pub fn calculate_replacement_range(t: &SyntaxTree, rules: &Vec<GroupingRule>, node: usize, replacement_has_preceding: bool) -> (r: (usize, usize))
    requires
        node < t.nodes@.len(),
    ensures
        (r.0 as int, r.1 as int) == replacement_range_spec(t.nodes@, group_spec(t.nodes@, rules@, node as int), node as int, replacement_has_preceding),
{
    let group = find_semantic_group(t, rules, node);
    proof {
        lemma_group_bounds(t.nodes@, rules@, node as int, group.preceding_nodes@, group.following_nodes@);
    }
    if replacement_has_preceding && group.has_preceding_elements() {
        group.byte_range(t)
    } else {
        (t.nodes[node].start, t.nodes[node].end)
    }
}

/// Where an insertion beside `node` goes: before the whole group, with its
/// preceding elements, or after it, with its following ones.
pub fn calculate_insertion_range(t: &SyntaxTree, rules: &Vec<GroupingRule>, node: usize, insert_before: bool) -> (r: (usize, usize))
    requires
        node < t.nodes@.len(),
    ensures
        (r.0 as int, r.1 as int) == insertion_range_spec(t.nodes@, group_spec(t.nodes@, rules@, node as int), node as int, insert_before),
{
    let group = find_semantic_group(t, rules, node);
    proof {
        lemma_group_bounds(t.nodes@, rules@, node as int, group.preceding_nodes@, group.following_nodes@);
    }
    let at = if insert_before {
        if group.preceding_nodes.len() > 0 {
            t.nodes[group.preceding_nodes[0]].start
        } else {
            t.nodes[node].start
        }
    } else if group.following_nodes.len() > 0 {
        t.nodes[group.following_nodes[group.following_nodes.len() - 1]].end
    } else {
        t.nodes[node].end
    };
    (at, at)
}

} // verus!
