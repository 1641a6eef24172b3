//! The file tree shown in the browser pane.
use vstd::prelude::*;
use crate::text::{chars_of, string_of, chars_eq, lex_le, lex_le_vec, lemma_lex_total, lemma_lex_trans, starts_with, has_prefix};
use crate::path::{file_name, file_name_vec, extension, extension_vec};

verus! {

/// A node of the file tree. Directories are walked lazily: a collapsed
/// directory usually has no children until it is first expanded.
pub enum FileNode {
    File(String),
    Dir { path: String, name: String, children: Vec<FileNode>, expanded: bool },
}

/// The path has the extension `md` or `markdown`.
pub open spec fn is_markdown_spec(path: Seq<char>) -> bool {
    extension(path) == Some(seq!['m', 'd']) || extension(path) == Some(
        seq!['m', 'a', 'r', 'k', 'd', 'o', 'w', 'n'],
    )
}

/// Whether `path` names a markdown file (extension `md` or `markdown`).
pub fn is_markdown_path(path: &str) -> (r: bool)
    ensures
        r == is_markdown_spec(path@),
{
    let p = chars_of(path);
    match extension_vec(&p) {
        Some(e) => {
            let md = vec!['m', 'd'];
            let markdown = vec!['m', 'a', 'r', 'k', 'd', 'o', 'w', 'n'];
            chars_eq(&e, &md) || chars_eq(&e, &markdown)
        },
        None => false,
    }
}

/// The nodes shown in the tree pane, in display order, each with its depth:
/// the node itself, then (for an expanded directory) its children's.
pub open spec fn visible(node: FileNode, depth: nat) -> Seq<(nat, FileNode)>
    decreases node,
{
    match node {
        FileNode::File(_) => seq![(depth, node)],
        FileNode::Dir { children, expanded, .. } => if expanded {
            seq![(depth, node)] + visible_list(children@, depth + 1)
        } else {
            seq![(depth, node)]
        },
    }
}

/// The visible nodes of a list of siblings.
pub open spec fn visible_list(nodes: Seq<FileNode>, depth: nat) -> Seq<(nat, FileNode)>
    decreases nodes,
{
    if nodes.len() == 0 {
        seq![]
    } else {
        visible_list(nodes.drop_last(), depth) + visible(nodes.last(), depth)
    }
}

/// The visible nodes without their depths.
pub open spec fn flat(node: FileNode) -> Seq<FileNode>
    decreases node,
{
    match node {
        FileNode::File(_) => seq![node],
        FileNode::Dir { children, expanded, .. } => if expanded {
            seq![node] + flat_list(children@)
        } else {
            seq![node]
        },
    }
}

pub open spec fn flat_list(nodes: Seq<FileNode>) -> Seq<FileNode>
    decreases nodes,
{
    if nodes.len() == 0 {
        seq![]
    } else {
        flat_list(nodes.drop_last()) + flat(nodes.last())
    }
}

/// The length of the longest chain of directories below `node`.
pub open spec fn height(node: FileNode) -> nat
    decreases node,
{
    match node {
        FileNode::File(_) => 0,
        FileNode::Dir { children, .. } => 1 + height_list(children@),
    }
}

pub open spec fn height_list(nodes: Seq<FileNode>) -> nat
    decreases nodes,
{
    if nodes.len() == 0 {
        0
    } else {
        let a = height_list(nodes.drop_last());
        let b = height(nodes.last());
        if a >= b { a } else { b }
    }
}

/// Every node of the tree in depth-first pre-order, expanded or not.
pub open spec fn all_nodes(node: FileNode) -> Seq<FileNode>
    decreases node,
{
    match node {
        FileNode::File(_) => seq![node],
        FileNode::Dir { children, .. } => seq![node] + all_nodes_list(children@),
    }
}

pub open spec fn all_nodes_list(nodes: Seq<FileNode>) -> Seq<FileNode>
    decreases nodes,
{
    if nodes.len() == 0 {
        seq![]
    } else {
        all_nodes_list(nodes.drop_last()) + all_nodes(nodes.last())
    }
}

/// The name shown for a node: a file's file name (`?` when it has none), or a
/// directory's stored name.
pub open spec fn node_name(node: FileNode) -> Seq<char> {
    match node {
        FileNode::File(p) => match file_name(p@) {
            Some(n) => n,
            None => seq!['?'],
        },
        FileNode::Dir { name, .. } => name@,
    }
}

impl FileNode {
    /// The name shown for this node.
    pub fn name(&self) -> (r: String)
        ensures
            r@ == node_name(*self),
    {
        match self {
            FileNode::File(p) => {
                let pc = chars_of(p.as_str());
                match file_name_vec(&pc) {
                    Some(n) => string_of(&n),
                    None => {
                        let r = String::from_str("?");
                        proof {
                            reveal_strlit("?");
                        }
                        r
                    },
                }
            },
            FileNode::Dir { name, .. } => name.clone(),
        }
    }

    /// A file with a markdown extension.
    pub fn is_markdown(&self) -> (r: bool)
        ensures
            r == (match *self {
                FileNode::File(p) => is_markdown_spec(p@),
                FileNode::Dir { .. } => false,
            }),
    {
        match self {
            FileNode::File(p) => is_markdown_path(p.as_str()),
            FileNode::Dir { .. } => false,
        }
    }
}

/// Strips the depths from a list of visible nodes.
pub open spec fn nodes_of(v: Seq<(nat, FileNode)>) -> Seq<FileNode> {
    v.map_values(|p: (nat, FileNode)| p.1)
}

pub open spec fn refs_view(v: Seq<&FileNode>) -> Seq<FileNode> {
    v.map_values(|r: &FileNode| *r)
}

pub open spec fn depth_refs_view(v: Seq<(usize, &FileNode)>) -> Seq<(nat, FileNode)> {
    v.map_values(|p: (usize, &FileNode)| (p.0 as nat, *p.1))
}

/// The depths shown for visible nodes do not change which nodes are visible.
pub proof fn lemma_visible_nodes(node: FileNode, depth: nat)
    ensures
        nodes_of(visible(node, depth)) == flat(node),
    decreases node,
{
    match node {
        FileNode::File(_) => {
            assert(nodes_of(visible(node, depth)) =~= flat(node));
        },
        FileNode::Dir { children, expanded, .. } => {
            if expanded {
                lemma_visible_nodes_list(children@, depth + 1);
                assert(nodes_of(visible(node, depth)) =~= seq![node] + nodes_of(
                    visible_list(children@, depth + 1),
                ));
            } else {
                assert(nodes_of(visible(node, depth)) =~= flat(node));
            }
        },
    }
}

pub proof fn lemma_visible_nodes_list(nodes: Seq<FileNode>, depth: nat)
    ensures
        nodes_of(visible_list(nodes, depth)) == flat_list(nodes),
    decreases nodes,
{
    if nodes.len() > 0 {
        lemma_visible_nodes_list(nodes.drop_last(), depth);
        lemma_visible_nodes(nodes.last(), depth);
        assert(nodes_of(visible_list(nodes, depth)) =~= nodes_of(
            visible_list(nodes.drop_last(), depth),
        ) + nodes_of(visible(nodes.last(), depth)));
    } else {
        assert(nodes_of(visible_list(nodes, depth)) =~= flat_list(nodes));
    }
}

proof fn lemma_take_step<T>(s: Seq<T>, i: int)
    requires
        0 <= i < s.len(),
    ensures
        s.take(i + 1).drop_last() == s.take(i),
        s.take(i + 1).last() == s[i],
{
    assert(s.take(i + 1).drop_last() =~= s.take(i));
}

impl FileNode {
    /// The visible nodes, in display order.
    pub fn visible_nodes(&self) -> (r: Vec<&FileNode>)
        ensures
            refs_view(r@) == flat(*self),
        decreases self,
    {
        let mut out: Vec<&FileNode> = Vec::new();
        out.push(self);
        match self {
            FileNode::File(_) => {},
            FileNode::Dir { children, expanded, .. } => {
                if *expanded {
                    let mut i: usize = 0;
                    while i < children.len()
                        invariant
                            *self is Dir && self->children == *children,
                            i <= children@.len(),
                            refs_view(out@) == seq![*self] + flat_list(children@.take(i as int)),
                        decreases children@.len() - i,
                    {
                        proof {
                            assert(decreases_to!(*self => self->children));
                            assert(decreases_to!(self->children => self->children@));
                            assert(decreases_to!(self->children@ => self->children@[i as int]));
                        }
                        let sub = children[i].visible_nodes();
                        let ghost before = out@;
                        let mut j: usize = 0;
                        while j < sub.len()
                            invariant
                                j <= sub@.len(),
                                out@ == before + sub@.take(j as int),
                            decreases sub@.len() - j,
                        {
                            out.push(sub[j]);
                            j += 1;
                            assert(sub@.take(j as int) =~= sub@.take(j - 1).push(sub@[j - 1]));
                        }
                        proof {
                            assert(sub@.take(sub@.len() as int) =~= sub@);
                            lemma_take_step(children@, i as int);
                            assert(refs_view(out@) =~= refs_view(before) + refs_view(sub@));
                        }
                        i += 1;
                    }
                    assert(children@.take(children@.len() as int) =~= children@);
                }
            },
        }
        proof {
            if !(*self is Dir && self->expanded) {
                assert(refs_view(out@) =~= flat(*self));
            }
        }
        out
    }

    /// The number of visible nodes.
    pub fn visible_count(&self) -> (n: usize)
        ensures
            n == flat(*self).len(),
    {
        self.visible_nodes().len()
    }

    /// The visible nodes, in display order, each with its depth (`depth` for this node).
    pub fn visit_visible(&self, depth: usize) -> (r: Vec<(usize, &FileNode)>)
        requires
            depth + height(*self) <= usize::MAX,
        ensures
            depth_refs_view(r@) == visible(*self, depth as nat),
        decreases self,
    {
        let mut out: Vec<(usize, &FileNode)> = Vec::new();
        out.push((depth, self));
        match self {
            FileNode::File(_) => {},
            FileNode::Dir { children, expanded, .. } => {
                if *expanded {
                    let mut i: usize = 0;
                    while i < children.len()
                        invariant
                            *self is Dir && self->children == *children,
                            i <= children@.len(),
                            depth + 1 + height_list(children@) <= usize::MAX,
                            depth_refs_view(out@) == seq![(depth as nat, *self)] + visible_list(
                                children@.take(i as int),
                                depth as nat + 1,
                            ),
                        decreases children@.len() - i,
                    {
                        proof {
                            lemma_height_list_elem(children@, i as int);
                        }
                        proof {
                            assert(decreases_to!(*self => self->children));
                            assert(decreases_to!(self->children => self->children@));
                            assert(decreases_to!(self->children@ => self->children@[i as int]));
                        }
                        let sub = children[i].visit_visible(depth + 1);
                        let ghost before = out@;
                        let mut j: usize = 0;
                        while j < sub.len()
                            invariant
                                j <= sub@.len(),
                                out@ == before + sub@.take(j as int),
                            decreases sub@.len() - j,
                        {
                            out.push(sub[j]);
                            j += 1;
                            assert(sub@.take(j as int) =~= sub@.take(j - 1).push(sub@[j - 1]));
                        }
                        proof {
                            assert(sub@.take(sub@.len() as int) =~= sub@);
                            lemma_take_step(children@, i as int);
                            assert(depth_refs_view(out@) =~= depth_refs_view(before)
                                + depth_refs_view(sub@));
                        }
                        i += 1;
                    }
                    assert(children@.take(children@.len() as int) =~= children@);
                }
            },
        }
        proof {
            if !(*self is Dir && self->expanded) {
                assert(depth_refs_view(out@) =~= visible(*self, depth as nat));
            }
        }
        out
    }

    /// Every node of the tree (expanded or not) in depth-first pre-order.
    pub fn visit_all(&self) -> (r: Vec<&FileNode>)
        ensures
            refs_view(r@) == all_nodes(*self),
        decreases self,
    {
        let mut out: Vec<&FileNode> = Vec::new();
        out.push(self);
        match self {
            FileNode::File(_) => {},
            FileNode::Dir { children, .. } => {
                let mut i: usize = 0;
                while i < children.len()
                    invariant
                        *self is Dir && self->children == *children,
                        i <= children@.len(),
                        refs_view(out@) == seq![*self] + all_nodes_list(children@.take(i as int)),
                    decreases children@.len() - i,
                {
                    proof {
                            assert(decreases_to!(*self => self->children));
                            assert(decreases_to!(self->children => self->children@));
                            assert(decreases_to!(self->children@ => self->children@[i as int]));
                        }
                        let sub = children[i].visit_all();
                    let ghost before = out@;
                    let mut j: usize = 0;
                    while j < sub.len()
                        invariant
                            j <= sub@.len(),
                            out@ == before + sub@.take(j as int),
                        decreases sub@.len() - j,
                    {
                        out.push(sub[j]);
                        j += 1;
                        assert(sub@.take(j as int) =~= sub@.take(j - 1).push(sub@[j - 1]));
                    }
                    proof {
                        assert(sub@.take(sub@.len() as int) =~= sub@);
                        lemma_take_step(children@, i as int);
                        assert(refs_view(out@) =~= refs_view(before) + refs_view(sub@));
                    }
                    i += 1;
                }
                assert(children@.take(children@.len() as int) =~= children@);
            },
        }
        proof {
            if *self is File {
                assert(refs_view(out@) =~= all_nodes(*self));
            }
        }
        out
    }
}

proof fn lemma_height_list_elem(nodes: Seq<FileNode>, i: int)
    requires
        0 <= i < nodes.len(),
    ensures
        height(nodes[i]) <= height_list(nodes),
    decreases nodes.len(),
{
    if i < nodes.len() - 1 {
        lemma_height_list_elem(nodes.drop_last(), i);
    }
}

/// One entry of a directory listing: its file name, its full path, and
/// whether it is a directory.
pub struct DirEntry {
    pub name: String,
    pub path: String,
    pub is_dir: bool,
}

/// Hidden entries (file name starting with `.`) are left out of the tree.
pub open spec fn is_hidden(e: DirEntry) -> bool {
    starts_with(e.name@, seq!['.'])
}

/// What identifies an entry: whether it is a directory, and its path.
pub open spec fn entry_info(e: DirEntry) -> (bool, Seq<char>) {
    (e.is_dir, e.path@)
}

/// What identifies a node: whether it is a directory, and its path.
pub open spec fn node_info(n: FileNode) -> (bool, Seq<char>) {
    match n {
        FileNode::File(p) => (false, p@),
        FileNode::Dir { path, .. } => (true, path@),
    }
}

/// `file_name(p)`, or `default` when `p` has none.
pub open spec fn file_name_or(p: Seq<char>, default: Seq<char>) -> Seq<char> {
    match file_name(p) {
        Some(n) => n,
        None => default,
    }
}

/// A node as a directory listing creates it: a file, or a collapsed directory
/// named after its path whose children are not loaded yet.
pub open spec fn fresh_node(n: FileNode) -> bool {
    match n {
        FileNode::File(_) => true,
        FileNode::Dir { path, name, children, expanded } => name@ == file_name_or(path@, seq!['?'])
            && children@.len() == 0 && !expanded,
    }
}

/// Directories sort by name, files by path, every directory before every file.
pub open spec fn sort_key(n: FileNode) -> Seq<char> {
    match n {
        FileNode::File(p) => p@,
        FileNode::Dir { name, .. } => name@,
    }
}

pub open spec fn node_le(a: FileNode, b: FileNode) -> bool {
    if a is Dir && b is File {
        true
    } else if a is File && b is Dir {
        false
    } else {
        lex_le(sort_key(a), sort_key(b))
    }
}

/// Every node sorts no later than every node after it.
pub open spec fn sorted_nodes(s: Seq<FileNode>) -> bool {
    forall|i: int, j: int| 0 <= i < j < s.len() ==> node_le(#[trigger] s[i], #[trigger] s[j])
}

pub open spec fn infos(nodes: Seq<FileNode>) -> Seq<(bool, Seq<char>)> {
    nodes.map_values(|n: FileNode| node_info(n))
}

pub open spec fn entry_infos(entries: Seq<DirEntry>) -> Seq<(bool, Seq<char>)> {
    entries.map_values(|e: DirEntry| entry_info(e))
}

/// The entries that are shown.
pub open spec fn shown_entries(entries: Seq<DirEntry>) -> Seq<DirEntry>
    decreases entries.len(),
{
    if entries.len() == 0 {
        seq![]
    } else if is_hidden(entries.last()) {
        shown_entries(entries.drop_last())
    } else {
        shown_entries(entries.drop_last()).push(entries.last())
    }
}

fn node_le_exec(a: &FileNode, b: &FileNode) -> (r: bool)
    ensures
        r == node_le(*a, *b),
{
    match (a, b) {
        (FileNode::Dir { name: x, .. }, FileNode::Dir { name: y, .. }) => {
            let xc = chars_of(x.as_str());
            let yc = chars_of(y.as_str());
            lex_le_vec(&xc, &yc)
        },
        (FileNode::File(x), FileNode::File(y)) => {
            let xc = chars_of(x.as_str());
            let yc = chars_of(y.as_str());
            lex_le_vec(&xc, &yc)
        },
        (FileNode::Dir { .. }, FileNode::File(_)) => true,
        (FileNode::File(_), FileNode::Dir { .. }) => false,
    }
}

proof fn lemma_node_le_total(a: FileNode, b: FileNode)
    ensures
        node_le(a, b) || node_le(b, a),
{
    lemma_lex_total(sort_key(a), sort_key(b));
}

proof fn lemma_node_le_trans(a: FileNode, b: FileNode, c: FileNode)
    requires
        node_le(a, b),
        node_le(b, c),
    ensures
        node_le(a, c),
{
    if (a is Dir) == (b is Dir) && (b is Dir) == (c is Dir) {
        lemma_lex_trans(sort_key(a), sort_key(b), sort_key(c));
    }
}

fn entry_node(e: DirEntry) -> (n: FileNode)
    ensures
        fresh_node(n),
        node_info(n) == entry_info(e),
{
    if e.is_dir {
        let pc = chars_of(e.path.as_str());
        let name = match file_name_vec(&pc) {
            Some(n) => string_of(&n),
            None => {
                let q = String::from_str("?");
                proof {
                    reveal_strlit("?");
                    assert(q@ =~= seq!['?']);
                }
                q
            },
        };
        FileNode::Dir { path: e.path, name, children: Vec::new(), expanded: false }
    } else {
        FileNode::File(e.path)
    }
}

/// Inserts `n` into the sorted `v` after every node that sorts no later than it.
fn insert_sorted(v: &mut Vec<FileNode>, n: FileNode) -> (pos: usize)
    requires
        sorted_nodes(old(v)@),
    ensures
        sorted_nodes(final(v)@),
        pos <= old(v)@.len(),
        final(v)@ == old(v)@.insert(pos as int, n),
{
    let mut i: usize = 0;
    while i < v.len() && node_le_exec(&v[i], &n)
        invariant
            i <= v@.len(),
            forall|j: int| 0 <= j < i ==> node_le(#[trigger] v@[j], n),
        decreases v@.len() - i,
    {
        i += 1;
    }
    let pos = i;
    let ghost old_v = v@;
    proof {
        if pos < old_v.len() {
            assert(!node_le(old_v[pos as int], n));
            lemma_node_le_total(old_v[pos as int], n);
        }
        assert(forall|j: int| 0 <= j < pos ==> node_le(#[trigger] old_v[j], n));
        assert forall|j: int| pos <= j < old_v.len() implies node_le(n, #[trigger] old_v[j]) by {
            if j > pos {
                assert(node_le(old_v[pos as int], old_v[j]));
                lemma_node_le_trans(n, old_v[pos as int], old_v[j]);
            }
        }
    }
    v.insert(pos, n);
    proof {
        let nv = v@;
        assert(nv == old_v.insert(pos as int, n));
        assert forall|a: int, b: int| 0 <= a < b < nv.len() implies node_le(
            #[trigger] nv[a],
            #[trigger] nv[b],
        ) by {
            if a < pos && b < pos {
            } else if a < pos && b == pos {
            } else if a < pos && b > pos {
                assert(nv[b] == old_v[b - 1]);
                lemma_node_le_trans(nv[a], n, nv[b]);
            } else if a == pos {
                assert(nv[b] == old_v[b - 1]);
            } else {
                assert(nv[a] == old_v[a - 1]);
                assert(nv[b] == old_v[b - 1]);
            }
        }
    }
    pos
}

/// The node for directory `path` with the given listing: an expanded
/// directory named after its path (`.` when it has no file name) whose
/// children are the non-hidden entries, directories first, each group in
/// order of name (directories) or path (files).
pub fn build_dir_node(path: &str, entries: Vec<DirEntry>) -> (r: FileNode)
    ensures
        r is Dir,
        r->path@ == path@,
        r->name@ == file_name_or(path@, seq!['.']),
        r->expanded,
        forall|i: int| 0 <= i < r->children@.len() ==> fresh_node(#[trigger] r->children@[i]),
        infos(r->children@).to_multiset() == entry_infos(shown_entries(entries@)).to_multiset(),
        sorted_nodes(r->children@),
{
    let ghost all = entries@;
    let mut sorted: Vec<FileNode> = Vec::new();
    let mut rest = entries;
    let mut taken: usize = 0;
    let dot = vec!['.'];
    let total = rest.len();
    assert(all.take(0) =~= Seq::<DirEntry>::empty());
    assert(all.skip(0) =~= all);
    proof {
        assert(infos(sorted@) =~= Seq::<(bool, Seq<char>)>::empty());
        assert(entry_infos(shown_entries(all.take(0))) =~= Seq::<(bool, Seq<char>)>::empty());
        broadcast use vstd::seq_lib::group_to_multiset_ensures;
    }
    while rest.len() > 0
        invariant
            dot@ == seq!['.'],
            total == all.len(),
            rest@.len() + taken == total,
            rest@ == all.skip(taken as int),
            forall|i: int| 0 <= i < sorted@.len() ==> fresh_node(#[trigger] sorted@[i]),
            infos(sorted@).to_multiset() == entry_infos(shown_entries(all.take(taken as int))).to_multiset(),
            sorted_nodes(sorted@),
        decreases rest@.len(),
    {
        let e = rest.remove(0);
        let ghost eg = e;
        assert(eg == all[taken as int]);
        proof {
            assert(all.take(taken + 1) =~= all.take(taken as int).push(eg));
            assert(all.take(taken + 1).drop_last() =~= all.take(taken as int));
        }
        let name = chars_of(e.name.as_str());
        if !has_prefix(&name, &dot) {
            let n = entry_node(e);
            let ghost before = sorted@;
            let pos = insert_sorted(&mut sorted, n);
            proof {
                assert(infos(sorted@) =~= infos(before).insert(pos as int, node_info(n)));
                vstd::seq_lib::to_multiset_insert(infos(before), pos as int, node_info(n));
                assert(entry_infos(shown_entries(all.take(taken + 1))) =~= entry_infos(shown_entries(all.take(taken as int))).push(entry_info(eg)));
                entry_infos(shown_entries(all.take(taken as int))).to_multiset_ensures();
            }
        } else {
            proof {
                assert(shown_entries(all.take(taken + 1)) =~= shown_entries(all.take(taken as int)));
            }
        }
        taken += 1;
        assert(rest@ =~= all.skip(taken as int));
    }
    assert(all.take(taken as int) =~= all);
    let pc = chars_of(path);
    let name = match file_name_vec(&pc) {
        Some(n) => string_of(&n),
        None => {
            let q = String::from_str(".");
            proof {
                reveal_strlit(".");
            }
            q
        },
    };
    FileNode::Dir { path: path.to_string(), name, children: sorted, expanded: true }
}

/// A change to one node of the tree.
pub enum NodeOp {
    /// Flip a directory between expanded and collapsed.
    Toggle,
    /// Collapse a directory.
    Collapse,
    /// Give a directory its children and expand it.
    Expand(Vec<FileNode>),
}

/// `new` is `old` changed by `op` (files are left as they are).
pub open spec fn op_applied(pre: FileNode, post: FileNode, op: NodeOp) -> bool {
    match pre {
        FileNode::File(_) => post == pre,
        FileNode::Dir { path, name, children, expanded } => post is Dir && post->path == path
            && post->name == name && match op {
            NodeOp::Toggle => post->children@ == children@ && post->expanded == !expanded,
            NodeOp::Collapse => post->children@ == children@ && !post->expanded,
            NodeOp::Expand(kids) => post->children@ == kids@ && post->expanded,
        },
    }
}

/// `new` is `old` with `op` applied to its visible node at index `t`
/// (unchanged when there is no such node).
pub open spec fn applied_at(pre: FileNode, post: FileNode, t: nat, op: NodeOp) -> bool
    decreases pre,
{
    if t == 0 {
        op_applied(pre, post, op)
    } else {
        match pre {
            FileNode::File(_) => post == pre,
            FileNode::Dir { path, name, children, expanded } => if !expanded {
                post == pre
            } else {
                post is Dir && post->path == path && post->name == name && post->expanded
                    && applied_list(children@, post->children@, (t - 1) as nat, op)
            },
        }
    }
}

/// The number of visible nodes of the first `k` siblings.
pub open spec fn prefix_len(nodes: Seq<FileNode>, k: int) -> nat {
    flat_list(nodes.take(k)).len()
}

/// `news` is `olds` with `op` applied to the visible node at index `t` of
/// the list (unchanged when there is no such node).
pub open spec fn applied_list(olds: Seq<FileNode>, news: Seq<FileNode>, t: nat, op: NodeOp) -> bool
    decreases olds,
{
    if olds.len() == 0 {
        news.len() == 0
    } else {
        let c = flat(olds[0]).len();
        news.len() == olds.len() && if t < c {
            applied_at(olds[0], news[0], t, op) && news.drop_first() == olds.drop_first()
        } else {
            news[0] == olds[0] && applied_list(olds.drop_first(), news.drop_first(), (t - c) as nat, op)
        }
    }
}

pub proof fn lemma_flat_list_concat(a: Seq<FileNode>, b: Seq<FileNode>)
    ensures
        flat_list(a + b) == flat_list(a) + flat_list(b),
    decreases b.len(),
{
    if b.len() == 0 {
        assert(a + b =~= a);
        assert(flat_list(b) =~= Seq::<FileNode>::empty());
        assert(flat_list(a) + flat_list(b) =~= flat_list(a));
    } else {
        lemma_flat_list_concat(a, b.drop_last());
        assert((a + b).drop_last() =~= a + b.drop_last());
        assert((a + b).last() == b.last());
        assert(flat_list(a + b) =~= flat_list(a) + flat_list(b));
    }
}

proof fn lemma_applied_list_skip(olds: Seq<FileNode>, news: Seq<FileNode>, i: int, t: nat, op: NodeOp)
    requires
        0 <= i <= olds.len(),
        news.len() == olds.len(),
        news.take(i) == olds.take(i),
        prefix_len(olds, i) <= t,
    ensures
        applied_list(olds, news, t, op) == applied_list(
            olds.skip(i),
            news.skip(i),
            (t - prefix_len(olds, i)) as nat,
            op,
        ),
    decreases i,
{
    if i == 0 {
        assert(olds.skip(0) =~= olds);
        assert(news.skip(0) =~= news);
        assert(olds.take(0) =~= Seq::<FileNode>::empty());
    } else {
        let d = olds.drop_first();
        assert(olds.take(i) =~= seq![olds[0]] + d.take(i - 1));
        lemma_flat_list_concat(seq![olds[0]], d.take(i - 1));
        assert(seq![olds[0]].drop_last() =~= Seq::<FileNode>::empty());
        assert(flat_list(seq![olds[0]].drop_last()) =~= Seq::<FileNode>::empty());
        assert(seq![olds[0]].last() == olds[0]);
        assert(flat_list(seq![olds[0]]) =~= flat(olds[0]));
        assert(news[0] == news.take(i)[0]);
        assert(olds[0] == olds.take(i)[0]);
        assert(news.drop_first().take(i - 1) =~= news.take(i).drop_first());
        assert(d.take(i - 1) =~= olds.take(i).drop_first());
        lemma_applied_list_skip(d, news.drop_first(), i - 1, (t - flat(olds[0]).len()) as nat, op);
        assert(d.skip(i - 1) =~= olds.skip(i));
        assert(news.drop_first().skip(i - 1) =~= news.skip(i));
    }
}

proof fn lemma_prefix_step(nodes: Seq<FileNode>, i: int)
    requires
        0 <= i < nodes.len(),
    ensures
        prefix_len(nodes, i + 1) == prefix_len(nodes, i) + flat(nodes[i]).len(),
{
    assert(nodes.take(i + 1).drop_last() =~= nodes.take(i));
}

impl FileNode {
    /// Applies `op` to the visible node at index `target`; returns whether
    /// there is such a node.
    #[verifier::loop_isolation(false)]
    pub fn apply_at(&mut self, target: usize, op: NodeOp) -> (found: bool)
        ensures
            found == (target < flat(*old(self)).len()),
            applied_at(*old(self), *final(self), target as nat, op),
        decreases *old(self),
    {
        if target == 0 {
            match self {
                FileNode::File(_) => {},
                FileNode::Dir { children, expanded, .. } => {
                    match op {
                        NodeOp::Toggle => {
                            *expanded = !*expanded;
                        },
                        NodeOp::Collapse => {
                            *expanded = false;
                        },
                        NodeOp::Expand(kids) => {
                            *children = kids;
                            *expanded = true;
                        },
                    }
                },
            }
            return true;
        }
        match self {
            FileNode::File(_) => false,
            FileNode::Dir { children, expanded, .. } => {
                if !*expanded {
                    return false;
                }
                let ghost olds = children@;
                let ghost tt = (target - 1) as nat;
                let mut t: usize = target - 1;
                let mut i: usize = 0;
                assert(olds.take(0) =~= Seq::<FileNode>::empty());
                while i < children.len()
                    invariant
                        children@ == olds,
                        *old(self) is Dir,
                        old(self)->children@ == olds,
                        old(self)->expanded,
                        *expanded,
                        i <= olds.len(),
                        tt == target - 1,
                        prefix_len(olds, i as int) + t == tt,
                    decreases olds.len() - i,
                {
                    let c = children[i].visible_count();
                    proof {
                        lemma_prefix_step(olds, i as int);
                    }
                    if t < c {
                        proof {
                            assert(decreases_to!(*old(self) => old(self)->children));
                            assert(decreases_to!(old(self)->children => old(self)->children@));
                            assert(decreases_to!(old(self)->children@ => old(self)->children@[i as int]));
                            lemma_prefix_le_total(olds, i as int + 1);
                        }
                        let _ = children[i].apply_at(t, op);
                        proof {
                            let news = children@;
                            assert(news.take(i as int) =~= olds.take(i as int));
                            lemma_applied_list_skip(olds, news, i as int, tt, op);
                            assert(olds.skip(i as int)[0] == olds[i as int]);
                            assert(news.skip(i as int)[0] == news[i as int]);
                            assert(news.skip(i as int).drop_first() =~= olds.skip(i as int).drop_first());
                            assert(applied_at(olds[i as int], news[i as int], t as nat, op));
                            assert(applied_list(olds.skip(i as int), news.skip(i as int), t as nat, op));
                            assert(applied_list(olds, news, tt, op));
                            assert(applied_list(old(self)->children@, children@, (target - 1) as nat, op));
                        }
                        return true;
                    }
                    t = t - c;
                    i += 1;
                }
                proof {
                    assert(olds.take(olds.len() as int) =~= olds);
                    lemma_applied_list_skip(olds, olds, olds.len() as int, tt, op);
                    assert(olds.skip(olds.len() as int) =~= Seq::<FileNode>::empty());
                }
                false
            },
        }
    }
}

proof fn lemma_prefix_le_total(nodes: Seq<FileNode>, k: int)
    requires
        0 <= k <= nodes.len(),
    ensures
        prefix_len(nodes, k) <= flat_list(nodes).len(),
    decreases nodes.len() - k,
{
    if k < nodes.len() {
        lemma_prefix_step(nodes, k);
        lemma_prefix_le_total(nodes, k + 1);
    } else {
        assert(nodes.take(k) =~= nodes);
    }
}

} // verus!
