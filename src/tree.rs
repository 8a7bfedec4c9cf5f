//! Reassembling the flat, parent-linked comment rows of a post into nested
//! trees for display.

use crate::db::{
    comment_index, comments_wf, has_comment, has_uri, parent_ok, uri_index, Comment, CommentView,
    Database, DbView, ModerationMode,
};
use crate::errors::ErrorKind;
use crate::identity::{clone_opt, display_author, get_author, opt_view};
use crate::threads::get_id;
use petgraph::graphmap::{DiGraphMap, GraphMap};
use petgraph::Directed;
use std::hash::BuildHasher;
use vstd::prelude::*;

verus! {

#[verifier::external_type_specification]
#[verifier::external_body]
#[verifier::reject_recursive_types(N)]
#[verifier::reject_recursive_types(E)]
#[verifier::reject_recursive_types(Ty)]
#[verifier::reject_recursive_types(S)]
pub struct ExGraphMap<N, E, Ty, S: BuildHasher>(GraphMap<N, E, Ty, S>);

#[verifier::external_type_specification]
#[verifier::external_body]
pub struct ExDirected(Directed);

/// The graph of replies: an edge runs from each comment to each reply to it.
pub type CommentGraph = DiGraphMap<i32, ()>;

/// For each node of the graph, its outgoing neighbours in the order in which
/// their edges were added.
pub uninterp spec fn successors(g: CommentGraph) -> Map<i32, Seq<i32>>;

/// The adjacency without nodes.
pub open spec fn empty_adjacency() -> Map<i32, Seq<i32>> {
    Map::empty()
}

/// The adjacency with node `n` present.
pub open spec fn with_node(m: Map<i32, Seq<i32>>, n: i32) -> Map<i32, Seq<i32>> {
    if m.contains_key(n) {
        m
    } else {
        m.insert(n, Seq::empty())
    }
}

/// The adjacency with an edge from `a` to `b`: both nodes present, and `b`
/// appended to the neighbours of `a` unless the edge was there already.
pub open spec fn with_edge(m: Map<i32, Seq<i32>>, a: i32, b: i32) -> Map<i32, Seq<i32>> {
    let m1 = with_node(m, a);
    let m2 = if m1[a].contains(b) {
        m1
    } else {
        m1.insert(a, m1[a].push(b))
    };
    with_node(m2, b)
}

/// The outgoing neighbours of `a`; none where `a` is not a node.
pub open spec fn out_of(m: Map<i32, Seq<i32>>, a: i32) -> Seq<i32> {
    if m.contains_key(a) {
        m[a]
    } else {
        Seq::empty()
    }
}

/// Relies on `GraphMap::new`: a graph without nodes or edges.
#[verifier::external_body]
fn graph_new() -> (r: CommentGraph)
    ensures
        successors(r) == empty_adjacency(),
{
    DiGraphMap::new()
}

/// Relies on `GraphMap::add_node`: adds `n` without edges unless it is a
/// node already.
#[verifier::external_body]
fn graph_add_node(g: &mut CommentGraph, n: i32)
    ensures
        successors(*final(g)) == with_node(successors(*old(g)), n),
{
    g.add_node(n);
}

/// Relies on `GraphMap::add_edge` on a directed graph: adds the missing
/// nodes, and a new edge at the end of the outgoing list of `a`; an edge
/// that exists already only gets its weight replaced.
#[verifier::external_body]
fn graph_add_edge(g: &mut CommentGraph, a: i32, b: i32)
    ensures
        successors(*final(g)) == with_edge(successors(*old(g)), a, b),
{
    g.add_edge(a, b, ());
}

/// Relies on `GraphMap::neighbors` on a directed graph: the targets of the
/// outgoing edges of `a`, in the order in which they were added; none where
/// `a` is not a node.
#[verifier::external_body]
fn graph_neighbors(g: &CommentGraph, a: i32) -> (r: Vec<i32>)
    ensures
        r@ == out_of(successors(*g), a),
{
    g.neighbors(a).collect()
}

/// A stored comment as it is read for display.
#[derive(Debug)]
pub struct PrintedComment {
    pub id: i32,
    pub parent: Option<i32>,
    pub text: String,
    pub author: Option<String>,
    pub email: Option<String>,
    pub url: Option<String>,
    pub hash: String,
    pub created: i64,
}

/// A displayed row as the contracts see it.
pub struct PrintedView {
    pub id: i32,
    pub parent: Option<i32>,
    pub text: Seq<char>,
    pub author: Option<Seq<char>>,
    pub email: Option<Seq<char>>,
    pub url: Option<Seq<char>>,
    pub hash: Seq<char>,
    pub created: i64,
}

impl View for PrintedComment {
    type V = PrintedView;

    open spec fn view(&self) -> PrintedView {
        PrintedView {
            id: self.id,
            parent: self.parent,
            text: self.text@,
            author: opt_view(self.author),
            email: opt_view(self.email),
            url: opt_view(self.url),
            hash: self.hash@,
            created: self.created,
        }
    }
}

/// The views of the rows.
pub open spec fn rows_view(rows: Seq<PrintedComment>) -> Seq<PrintedView> {
    rows.map_values(|r: PrintedComment| r@)
}

/// Whether some row has this id.
pub open spec fn has_row(rows: Seq<PrintedView>, id: i32) -> bool {
    exists|i: int| 0 <= i < rows.len() && #[trigger] rows[i].id == id
}

/// The position of the first row with this id, or the number of rows.
pub open spec fn row_index(rows: Seq<PrintedView>, id: i32) -> int
    decreases rows.len(),
{
    if rows.len() == 0 {
        0
    } else if rows[0].id == id {
        0
    } else {
        1 + row_index(rows.drop_first(), id)
    }
}

/// Every neighbour in the adjacency is the id of some row.
pub open spec fn closed_over(m: Map<i32, Seq<i32>>, rows: Seq<PrintedView>) -> bool {
    forall|a: i32, i: int| #![trigger m[a][i]] m.contains_key(a) && 0 <= i < m[a].len() ==> has_row(rows, m[a][i])
}

/// Whether the tree below `id` is no more than `fuel` levels deep.
pub open spec fn tree_ok(m: Map<i32, Seq<i32>>, id: i32, fuel: nat) -> bool
    decreases fuel,
{
    if fuel == 0 {
        false
    } else {
        forall|i: int| 0 <= i < out_of(m, id).len() ==> tree_ok(m, #[trigger] out_of(m, id)[i], (fuel - 1) as nat)
    }
}

proof fn lemma_tree_ok_unfold(m: Map<i32, Seq<i32>>, id: i32, f: nat)
    requires
        f > 0,
        forall|j: int| 0 <= j < out_of(m, id).len() ==> tree_ok(m, #[trigger] out_of(m, id)[j], (f - 1) as nat),
    ensures
        tree_ok(m, id, f),
{
}

proof fn lemma_tree_ok_child(m: Map<i32, Seq<i32>>, id: i32, f: nat, j: int)
    requires
        tree_ok(m, id, f),
        0 <= j < out_of(m, id).len(),
    ensures
        f > 0,
        tree_ok(m, out_of(m, id)[j], (f - 1) as nat),
{
}

proof fn lemma_built_unfold(rows: Seq<PrintedView>, m: Map<i32, Seq<i32>>, id: i32, f: nat, n: NestedComment)
    requires
        f > 0,
        n.id == id,
        n.text@ == rows[row_index(rows, id)].text,
        opt_view(n.author) == display_author(
            rows[row_index(rows, id)].author,
            rows[row_index(rows, id)].email,
            rows[row_index(rows, id)].url,
        ),
        n.hash@ == rows[row_index(rows, id)].hash,
        n.created == rows[row_index(rows, id)].created,
        n.children@.len() == out_of(m, id).len(),
        forall|j: int|
            0 <= j < out_of(m, id).len() ==> built(rows, m, out_of(m, id)[j], (f - 1) as nat, #[trigger] n.children@[j]),
    ensures
        built(rows, m, id, f, n),
{
}

/// A comment with its replies, as shown.
#[derive(Debug)]
pub struct NestedComment {
    pub id: i32,
    pub text: String,
    pub author: Option<String>,
    pub hash: String,
    pub created: i64,
    pub children: Vec<NestedComment>,
}

/// Whether `n` shows the row with this id, with the display author, and below
/// it, in order, the trees of the rows that reply to it.
pub open spec fn built(rows: Seq<PrintedView>, m: Map<i32, Seq<i32>>, id: i32, fuel: nat, n: NestedComment) -> bool
    decreases fuel,
{
    if fuel == 0 {
        false
    } else {
        let r = rows[row_index(rows, id)];
        let kids = out_of(m, id);
        &&& n.id == id
        &&& n.text@ == r.text
        &&& opt_view(n.author) == display_author(r.author, r.email, r.url)
        &&& n.hash@ == r.hash
        &&& n.created == r.created
        &&& n.children@.len() == kids.len()
        &&& forall|i: int| 0 <= i < kids.len() ==> built(rows, m, kids[i], (fuel - 1) as nat, #[trigger] n.children@[i])
    }
}

proof fn lemma_row_index(rows: Seq<PrintedView>, id: i32, i: int)
    requires
        0 <= i < rows.len(),
        rows[i].id == id,
        forall|j: int| 0 <= j < i ==> rows[j].id != id,
    ensures
        row_index(rows, id) == i,
    decreases rows.len(),
{
    if i > 0 {
        assert forall|j: int| 0 <= j < i - 1 implies rows.drop_first()[j].id != id by {
            assert(rows[j + 1].id != id);
        }
        lemma_row_index(rows.drop_first(), id, i - 1);
    }
}

/// The position of the first row with this id.
fn position(comments: &Vec<PrintedComment>, id: i32) -> (r: usize)
    requires
        has_row(rows_view(comments@), id),
    ensures
        r == row_index(rows_view(comments@), id),
        r < comments@.len(),
        comments@[r as int].id == id,
{
    let ghost rows = rows_view(comments@);
    let n = comments.len();
    let mut i: usize = 0;
    while i < n
        invariant
            rows == rows_view(comments@),
            n == comments@.len(),
            i <= n,
            has_row(rows, id),
            forall|j: int| 0 <= j < i ==> rows[j].id != id,
        decreases n - i,
    {
        if comments[i].id == id {
            proof {
                lemma_row_index(rows, id, i as int);
            }
            return i;
        }
        i = i + 1;
    }
    proof {
        let w = choose|w: int| 0 <= w < rows.len() && #[trigger] rows[w].id == id;
        assert(rows[w].id != id);
    }
    0
}

impl NestedComment {
    /// A nested comment for a row, with the replies given.
    fn new(comment: &PrintedComment, children: Vec<NestedComment>) -> (r: NestedComment)
        ensures
            r.id == comment.id,
            r.text@ == comment.text@,
            opt_view(r.author) == display_author(opt_view(comment.author), opt_view(comment.email), opt_view(comment.url)),
            r.hash@ == comment.hash@,
            r.created == comment.created,
            r.children == children,
    {
        let author = get_author(&comment.author, &comment.email, &comment.url);
        NestedComment {
            id: comment.id,
            text: comment.text.clone(),
            author,
            hash: comment.hash.clone(),
            created: comment.created,
            children,
        }
    }
}

/// Builds the tree below `id`, at most `fuel` levels deep.
fn build_tree(graph: &CommentGraph, id: i32, comments: &Vec<PrintedComment>, fuel: usize) -> (r: Result<
    NestedComment,
    ErrorKind,
>)
    requires
        closed_over(successors(*graph), rows_view(comments@)),
        has_row(rows_view(comments@), id),
    ensures
        r.is_ok() == tree_ok(successors(*graph), id, fuel as nat),
        r.is_ok() ==> built(rows_view(comments@), successors(*graph), id, fuel as nat, r.unwrap()),
        r.is_err() ==> r == Err::<NestedComment, ErrorKind>(ErrorKind::DataIntegrity),
    decreases fuel,
{
    let ghost m = successors(*graph);
    let ghost rows = rows_view(comments@);
    if fuel == 0 {
        return Err(ErrorKind::DataIntegrity);
    }
    let kids = graph_neighbors(graph, id);
    let mut children: Vec<NestedComment> = Vec::new();
    let mut i: usize = 0;
    while i < kids.len()
        invariant
            m == successors(*graph),
            rows == rows_view(comments@),
            closed_over(m, rows),
            kids@ == out_of(m, id),
            fuel > 0,
            i <= kids@.len(),
            children@.len() == i,
            forall|j: int| 0 <= j < i ==> #[trigger] tree_ok(m, kids@[j], (fuel - 1) as nat),
            forall|j: int| 0 <= j < i ==> #[trigger] built(rows, m, kids@[j], (fuel - 1) as nat, children@[j]),
        decreases kids@.len() - i,
    {
        let kid = kids[i];
        assert(m.contains_key(id) && m[id][i as int] == kid);
        match build_tree(graph, kid, comments, fuel - 1) {
            Ok(n) => {
                children.push(n);
            },
            Err(e) => {
                proof {
                    let f: nat = fuel as nat;
                    assert(out_of(m, id)[i as int] == kid);
                    assert(!tree_ok(m, out_of(m, id)[i as int], (f - 1) as nat));
                    if tree_ok(m, id, f) {
                        lemma_tree_ok_child(m, id, f, i as int);
                    }
                }
                return Err(e);
            },
        }
        i = i + 1;
    }
    let idx = position(comments, id);
    let r = NestedComment::new(&comments[idx], children);
    proof {
        let f: nat = fuel as nat;
        assert forall|j: int| 0 <= j < out_of(m, id).len() implies #[trigger] tree_ok(
            m,
            out_of(m, id)[j],
            (f - 1) as nat,
        ) by {
            assert(tree_ok(m, kids@[j], (fuel - 1) as nat));
        }
        lemma_tree_ok_unfold(m, id, f);
        assert forall|j: int| 0 <= j < out_of(m, id).len() implies built(
            rows,
            m,
            out_of(m, id)[j],
            (f - 1) as nat,
            #[trigger] r.children@[j],
        ) by {
            assert(built(rows, m, kids@[j], (fuel - 1) as nat, children@[j]));
        }
        assert(rows[idx as int] == comments@[idx as int]@);
        assert(r.children@.len() == out_of(m, id).len());
        lemma_built_unfold(rows, m, id, f, r);
    }
    Ok(r)
}

proof fn lemma_closed_with_node(m: Map<i32, Seq<i32>>, n: i32, rows: Seq<PrintedView>)
    requires
        closed_over(m, rows),
    ensures
        closed_over(with_node(m, n), rows),
{
    let m2 = with_node(m, n);
    assert forall|a: i32, i: int| m2.contains_key(a) && 0 <= i < m2[a].len() implies has_row(rows, #[trigger] m2[a][i]) by {
        if !m.contains_key(n) && a == n {
        } else {
            assert(m[a][i] == m2[a][i]);
        }
    }
}

proof fn lemma_closed_with_edge(m: Map<i32, Seq<i32>>, a: i32, b: i32, rows: Seq<PrintedView>)
    requires
        closed_over(m, rows),
        has_row(rows, b),
    ensures
        closed_over(with_edge(m, a, b), rows),
{
    let m1 = with_node(m, a);
    lemma_closed_with_node(m, a, rows);
    let m2 = if m1[a].contains(b) {
        m1
    } else {
        m1.insert(a, m1[a].push(b))
    };
    assert forall|x: i32, i: int| m2.contains_key(x) && 0 <= i < m2[x].len() implies has_row(rows, #[trigger] m2[x][i]) by {
        if !m1[a].contains(b) && x == a {
            if i < m1[a].len() {
                assert(m2[x][i] == m1[a][i]);
            }
        } else {
            assert(m1[x][i] == m2[x][i]);
        }
    }
    lemma_closed_with_node(m2, b, rows);
}

/// The adjacency as the rows are added one by one: each row's own node, its
/// parent's node, and the edge from the parent to it.
pub open spec fn graph_of(rows: Seq<PrintedView>) -> Map<i32, Seq<i32>>
    decreases rows.len(),
{
    if rows.len() == 0 {
        empty_adjacency()
    } else {
        let r = rows.last();
        let m = with_node(graph_of(rows.drop_last()), r.id);
        match r.parent {
            Some(p) => with_edge(with_node(m, p), p, r.id),
            None => m,
        }
    }
}

/// The ids of the rows without a parent, in their order.
pub open spec fn roots(rows: Seq<PrintedView>) -> Seq<i32>
    decreases rows.len(),
{
    if rows.len() == 0 {
        Seq::empty()
    } else {
        roots(rows.drop_last()) + if rows.last().parent is None {
            seq![rows.last().id]
        } else {
            Seq::empty()
        }
    }
}

/// Whether every tree of the forest is no deeper than the number of rows.
pub open spec fn forest_ok(rows: Seq<PrintedView>) -> bool {
    forall|j: int| 0 <= j < roots(rows).len() ==> tree_ok(graph_of(rows), #[trigger] roots(rows)[j], rows.len())
}

impl NestedComment {
    /// Nests the rows: one tree for each row without a parent, in the order
    /// of the rows, each reply below the comment it replies to. A chain of
    /// replies longer than the number of rows can only come from a cycle,
    /// which is reported as a contradiction in the stored rows.
    pub fn from_rows(comments: &Vec<PrintedComment>) -> (r: Result<Vec<NestedComment>, ErrorKind>)
        ensures
            r.is_ok() == forest_ok(rows_view(comments@)),
            r.is_ok() ==> {
                let rows = rows_view(comments@);
                &&& r.unwrap()@.len() == roots(rows).len()
                &&& forall|j: int| 0 <= j < roots(rows).len() ==> built(rows, graph_of(rows), roots(rows)[j], rows.len(), #[trigger] r.unwrap()@[j])
            },
            r.is_err() ==> r == Err::<Vec<NestedComment>, ErrorKind>(ErrorKind::DataIntegrity),
    {
        let ghost rows = rows_view(comments@);
        let n = comments.len();
        let mut graph = graph_new();
        let mut top_level_ids: Vec<i32> = Vec::new();
        let mut i: usize = 0;
        proof {
            assert(rows.subrange(0, 0) =~= Seq::<PrintedView>::empty());
        }
        while i < n
            invariant
                rows == rows_view(comments@),
                n == rows.len(),
                i <= n,
                successors(graph) == graph_of(rows.subrange(0, i as int)),
                top_level_ids@ == roots(rows.subrange(0, i as int)),
                closed_over(successors(graph), rows),
                forall|j: int| 0 <= j < top_level_ids@.len() ==> has_row(rows, #[trigger] top_level_ids@[j]),
            decreases n - i,
        {
            let ghost pre = rows.subrange(0, i as int);
            let ghost cur = rows.subrange(0, i as int + 1);
            assert(cur.drop_last() =~= pre);
            assert(cur.last() == rows[i as int]);
            let id = comments[i].id;
            assert(has_row(rows, id)) by {
                assert(rows[i as int].id == id);
            }
            proof {
                lemma_closed_with_node(successors(graph), id, rows);
            }
            graph_add_node(&mut graph, id);
            match comments[i].parent {
                Some(parent_id) => {
                    proof {
                        lemma_closed_with_node(successors(graph), parent_id, rows);
                    }
                    graph_add_node(&mut graph, parent_id);
                    proof {
                        lemma_closed_with_edge(successors(graph), parent_id, id, rows);
                    }
                    graph_add_edge(&mut graph, parent_id, id);
                    assert(top_level_ids@ =~= roots(cur));
                },
                None => {
                    top_level_ids.push(id);
                    assert(top_level_ids@ =~= roots(cur));
                },
            }
            i = i + 1;
        }
        assert(rows.subrange(0, n as int) =~= rows);
        let ghost m = successors(graph);
        let mut tree: Vec<NestedComment> = Vec::new();
        let mut j: usize = 0;
        while j < top_level_ids.len()
            invariant
                rows == rows_view(comments@),
                n == rows.len(),
                m == successors(graph),
                m == graph_of(rows),
                top_level_ids@ == roots(rows),
                closed_over(m, rows),
                forall|k: int| 0 <= k < top_level_ids@.len() ==> has_row(rows, #[trigger] top_level_ids@[k]),
                j <= top_level_ids@.len(),
                tree@.len() == j,
                forall|k: int| 0 <= k < j ==> tree_ok(m, #[trigger] top_level_ids@[k], n as nat),
                forall|k: int| 0 <= k < j ==> built(rows, m, top_level_ids@[k], n as nat, #[trigger] tree@[k]),
            decreases top_level_ids@.len() - j,
        {
            let root = top_level_ids[j];
            assert(has_row(rows, top_level_ids@[j as int]));
            match build_tree(&graph, root, comments, n) {
                Ok(t) => {
                    tree.push(t);
                },
                Err(e) => {
                    assert(!tree_ok(m, roots(rows)[j as int], rows.len()));
                    return Err(e);
                },
            }
            j = j + 1;
        }
        assert forall|k: int| 0 <= k < roots(rows).len() implies tree_ok(graph_of(rows), #[trigger] roots(rows)[k], rows.len()) by {
            assert(tree_ok(m, top_level_ids@[k], n as nat));
        }
        Ok(tree)
    }
}

/// A stored comment as read for display.
pub open spec fn printed_of(c: CommentView) -> PrintedView {
    PrintedView {
        id: c.id,
        parent: c.parent,
        text: c.text,
        author: c.author,
        email: c.email,
        url: c.website,
        hash: c.hash,
        created: c.created,
    }
}

/// The shown comments of thread `tid`, in the order in which they were
/// stored.
pub open spec fn visible_rows(c: Seq<CommentView>, tid: i32) -> Seq<PrintedView>
    decreases c.len(),
{
    if c.len() == 0 {
        Seq::empty()
    } else {
        visible_rows(c.drop_last(), tid) + if c.last().tid == tid && c.last().mode == ModerationMode::Visible {
            seq![printed_of(c.last())]
        } else {
            Seq::empty()
        }
    }
}

/// The shown comments of the post at `path`; none where the post has no
/// thread.
pub open spec fn listed_rows(db: DbView, path: Seq<char>) -> Seq<PrintedView> {
    if has_uri(db.threads, path) {
        visible_rows(db.comments, db.threads[uri_index(db.threads, path)].id)
    } else {
        Seq::empty()
    }
}

impl PrintedComment {
    fn from_row(c: &Comment) -> (r: PrintedComment)
        ensures
            r@ == printed_of(c@),
    {
        PrintedComment {
            id: c.id,
            parent: c.parent,
            text: c.text.clone(),
            author: clone_opt(&c.author),
            email: clone_opt(&c.email),
            url: clone_opt(&c.website),
            hash: c.hash.clone(),
            created: c.created,
        }
    }

    /// Returns the shown comments of the post at `path`, in the order in
    /// which they were stored.
    pub fn list(conn: &Database, path: &str) -> (r: Vec<PrintedComment>)
        requires
            conn@.wf(),
        ensures
            rows_view(r@) == listed_rows(conn@, path@),
    {
        let mut out: Vec<PrintedComment> = Vec::new();
        let tid = match get_id(conn, path) {
            Ok(t) => t,
            Err(_) => {
                assert(rows_view(out@) =~= Seq::<PrintedView>::empty());
                return out;
            },
        };
        let n = conn.comments.len();
        let mut i: usize = 0;
        assert(rows_view(out@) =~= visible_rows(conn@.comments.subrange(0, 0), tid));
        while i < n
            invariant
                n == conn@.comments.len(),
                i <= n,
                rows_view(out@) == visible_rows(conn@.comments.subrange(0, i as int), tid),
            decreases n - i,
        {
            let ghost cur = conn@.comments.subrange(0, i as int + 1);
            assert(cur.drop_last() =~= conn@.comments.subrange(0, i as int));
            let c = &conn.comments[i];
            if c.tid == tid && c.mode == ModerationMode::Visible {
                out.push(PrintedComment::from_row(c));
                assert(rows_view(out@) =~= visible_rows(cur, tid));
            } else {
                assert(rows_view(out@) =~= visible_rows(cur, tid));
            }
            i = i + 1;
        }
        assert(conn@.comments.subrange(0, n as int) =~= conn@.comments);
        out
    }

    /// Returns the comment with this id.
    pub fn get(conn: &Database, id: i32) -> (r: Result<PrintedComment, ErrorKind>)
        requires
            conn@.wf(),
        ensures
            has_comment(conn@.comments, id) ==> r.is_ok() && r.unwrap()@ == printed_of(
                conn@.comments[comment_index(conn@.comments, id)],
            ),
            !has_comment(conn@.comments, id) ==> r == Err::<PrintedComment, ErrorKind>(ErrorKind::DBRead),
    {
        match conn.find_comment(id) {
            Some(k) => Ok(PrintedComment::from_row(&conn.comments[k])),
            None => Err(ErrorKind::DBRead),
        }
    }
}

impl NestedComment {
    /// Returns the shown comments of the post at `path`, nested by replies.
    pub fn list(conn: &Database, path: &str) -> (r: Result<Vec<NestedComment>, ErrorKind>)
        requires
            conn@.wf(),
        ensures
            r.is_ok(),
            ({
                let rows = listed_rows(conn@, path@);
                &&& r.unwrap()@.len() == roots(rows).len()
                &&& forall|j: int| 0 <= j < roots(rows).len() ==> built(rows, graph_of(rows), roots(rows)[j], rows.len(), #[trigger] r.unwrap()@[j])
            }),
    {
        let comments = PrintedComment::list(conn, path);
        proof {
            law_listing_succeeds(conn@, path@);
        }
        NestedComment::from_rows(&comments)
    }
}

/// Row ids grow along the rows, and each row's parent has a smaller id than
/// the row itself.
pub open spec fn rows_ordered(rows: Seq<PrintedView>) -> bool {
    &&& forall|i: int, j: int| 0 <= i < j < rows.len() ==> #[trigger] rows[i].id < #[trigger] rows[j].id
    &&& forall|i: int|
        0 <= i < rows.len() ==> match #[trigger] rows[i].parent {
            Some(p) => p < rows[i].id,
            None => true,
        }
}

/// Each neighbour in the adjacency is a row that replies to the node.
pub open spec fn successors_reply(m: Map<i32, Seq<i32>>, rows: Seq<PrintedView>) -> bool {
    forall|x: i32, j: int|
        #![trigger m[x][j]]
        m.contains_key(x) && 0 <= j < m[x].len() ==> exists|i: int|
            0 <= i < rows.len() && #[trigger] rows[i].id == m[x][j] && rows[i].parent == Some(x)
}

proof fn lemma_graph_of_replies(rows: Seq<PrintedView>)
    ensures
        successors_reply(graph_of(rows), rows),
    decreases rows.len(),
{
    if rows.len() > 0 {
        let pre = rows.drop_last();
        lemma_graph_of_replies(pre);
        let r = rows.last();
        let m0 = graph_of(pre);
        assert forall|x: i32, j: int| #![trigger m0[x][j]] m0.contains_key(x) && 0 <= j < m0[x].len() implies exists|i: int|
            0 <= i < rows.len() && #[trigger] rows[i].id == m0[x][j] && rows[i].parent == Some(x) by {
            let i = choose|i: int| 0 <= i < pre.len() && #[trigger] pre[i].id == m0[x][j] && pre[i].parent == Some(x);
            assert(rows[i] == pre[i]);
        }
        let m1 = with_node(m0, r.id);
        assert forall|x: i32, j: int| #![trigger m1[x][j]] m1.contains_key(x) && 0 <= j < m1[x].len() implies exists|i: int|
            0 <= i < rows.len() && #[trigger] rows[i].id == m1[x][j] && rows[i].parent == Some(x) by {
            assert(m0.contains_key(x) && m0[x][j] == m1[x][j]);
        }
        if let Some(p) = r.parent {
            let m2 = with_node(m1, p);
            assert forall|x: i32, j: int| #![trigger m2[x][j]] m2.contains_key(x) && 0 <= j < m2[x].len() implies exists|i: int|
                0 <= i < rows.len() && #[trigger] rows[i].id == m2[x][j] && rows[i].parent == Some(x) by {
                assert(m1.contains_key(x) && m1[x][j] == m2[x][j]);
            }
            let m3 = if m2[p].contains(r.id) {
                m2
            } else {
                m2.insert(p, m2[p].push(r.id))
            };
            assert forall|x: i32, j: int| #![trigger m3[x][j]] m3.contains_key(x) && 0 <= j < m3[x].len() implies exists|i: int|
                0 <= i < rows.len() && #[trigger] rows[i].id == m3[x][j] && rows[i].parent == Some(x) by {
                if !m2[p].contains(r.id) && x == p && j == m2[p].len() {
                    assert(rows[rows.len() - 1].id == m3[x][j]);
                } else {
                    assert(m2.contains_key(x) && m2[x][j] == m3[x][j]);
                }
            }
            let m4 = with_node(m3, r.id);
            assert forall|x: i32, j: int| #![trigger m4[x][j]] m4.contains_key(x) && 0 <= j < m4[x].len() implies exists|i: int|
                0 <= i < rows.len() && #[trigger] rows[i].id == m4[x][j] && rows[i].parent == Some(x) by {
                assert(m3.contains_key(x) && m3[x][j] == m4[x][j]);
            }
            assert(graph_of(rows) == m4);
        } else {
            assert(graph_of(rows) == m1);
        }
    }
}

/// In ordered rows, the tree below the row at position `k` is no deeper
/// than the number of rows after it, plus one.
proof fn lemma_tree_ok_ordered(rows: Seq<PrintedView>, x: i32, k: int, fuel: nat)
    requires
        rows_ordered(rows),
        successors_reply(graph_of(rows), rows),
        0 <= k < rows.len(),
        rows[k].id == x,
        fuel >= rows.len() - k,
    ensures
        tree_ok(graph_of(rows), x, fuel),
    decreases fuel,
{
    let m = graph_of(rows);
    assert forall|j: int| 0 <= j < out_of(m, x).len() implies tree_ok(m, #[trigger] out_of(m, x)[j], (fuel - 1) as nat) by {
        let y = out_of(m, x)[j];
        assert(m.contains_key(x) && m[x][j] == y);
        let i = choose|i: int| 0 <= i < rows.len() && #[trigger] rows[i].id == m[x][j] && rows[i].parent == Some(x);
        assert(x < y);
        if i <= k {
            if i < k {
                assert(rows[i].id < rows[k].id);
            }
        }
        lemma_tree_ok_ordered(rows, y, i, (fuel - 1) as nat);
    }
    lemma_tree_ok_unfold(m, x, fuel);
}

proof fn lemma_roots_are_rows(rows: Seq<PrintedView>, j: int)
    requires
        0 <= j < roots(rows).len(),
    ensures
        exists|k: int| 0 <= k < rows.len() && #[trigger] rows[k].id == roots(rows)[j],
    decreases rows.len(),
{
    let pre = rows.drop_last();
    if j < roots(pre).len() {
        lemma_roots_are_rows(pre, j);
        let k = choose|k: int| 0 <= k < pre.len() && #[trigger] pre[k].id == roots(pre)[j];
        assert(rows[k] == pre[k]);
    } else {
        assert(rows[rows.len() - 1].id == roots(rows)[j]);
    }
}

/// Ordered rows always nest: no chain of replies runs longer than the rows.
pub proof fn lemma_ordered_forest_ok(rows: Seq<PrintedView>)
    requires
        rows_ordered(rows),
    ensures
        forest_ok(rows),
{
    lemma_graph_of_replies(rows);
    assert forall|j: int| 0 <= j < roots(rows).len() implies tree_ok(graph_of(rows), #[trigger] roots(rows)[j], rows.len()) by {
        lemma_roots_are_rows(rows, j);
        let k = choose|k: int| 0 <= k < rows.len() && #[trigger] rows[k].id == roots(rows)[j];
        lemma_tree_ok_ordered(rows, roots(rows)[j], k, rows.len());
    }
}

/// Ids grow along the comments, and each parent has a smaller id than its
/// reply.
pub open spec fn comments_ordered(c: Seq<CommentView>) -> bool {
    &&& forall|i: int, j: int| 0 <= i < j < c.len() ==> #[trigger] c[i].id < #[trigger] c[j].id
    &&& forall|i: int|
        0 <= i < c.len() ==> match #[trigger] c[i].parent {
            Some(p) => p < c[i].id,
            None => true,
        }
}

proof fn lemma_visible_rows_ordered(c: Seq<CommentView>, tid: i32)
    requires
        comments_ordered(c),
    ensures
        rows_ordered(visible_rows(c, tid)),
        forall|i: int|
            #![trigger visible_rows(c, tid)[i]]
            0 <= i < visible_rows(c, tid).len() ==> exists|j: int| 0 <= j < c.len() && #[trigger] c[j].id == visible_rows(c, tid)[i].id,
    decreases c.len(),
{
    if c.len() > 0 {
        let pre = c.drop_last();
        assert(comments_ordered(pre)) by {
            assert forall|i: int| 0 <= i < pre.len() implies match #[trigger] pre[i].parent {
                Some(p) => p < pre[i].id,
                None => true,
            } by {
                assert(pre[i] == c[i]);
            }
        }
        lemma_visible_rows_ordered(pre, tid);
        let v0 = visible_rows(pre, tid);
        let v = visible_rows(c, tid);
        let last = c.last();
        assert forall|i: int| #![trigger v0[i]] 0 <= i < v0.len() implies v0[i].id < last.id by {
            let j = choose|j: int| 0 <= j < pre.len() && #[trigger] pre[j].id == v0[i].id;
            assert(c[j].id < c[c.len() - 1].id);
        }
        assert forall|i: int| #![trigger v[i]] 0 <= i < v.len() implies exists|j: int| 0 <= j < c.len() && #[trigger] c[j].id == v[i].id by {
            if i < v0.len() {
                let j = choose|j: int| 0 <= j < pre.len() && #[trigger] pre[j].id == v0[i].id;
                assert(c[j] == pre[j]);
            } else {
                assert(c[c.len() - 1].id == v[i].id);
            }
        }
        assert forall|i: int| 0 <= i < v.len() implies match #[trigger] v[i].parent {
            Some(p) => p < v[i].id,
            None => true,
        } by {
            if i >= v0.len() {
                assert(c[c.len() - 1] == last);
            }
        }
    }
}

/// The comments of a well-formed store are ordered.
proof fn lemma_wf_ordered(c: Seq<CommentView>)
    requires
        comments_wf(c),
    ensures
        comments_ordered(c),
{
    assert forall|i: int| 0 <= i < c.len() implies match #[trigger] c[i].parent {
        Some(p) => p < c[i].id,
        None => true,
    } by {
        assert(parent_ok(c, i));
        if let Some(p) = c[i].parent {
            let j = choose|j: int| 0 <= j < i && #[trigger] c[j].id == p && c[j].tid == c[i].tid;
            assert(c[j].id < c[i].id);
        }
    }
}

/// The comments of a well-formed store always nest: listing a post never
/// reports a contradiction.
pub proof fn law_listing_succeeds(db: DbView, path: Seq<char>)
    requires
        db.wf(),
    ensures
        forest_ok(listed_rows(db, path)),
{
    if has_uri(db.threads, path) {
        lemma_wf_ordered(db.comments);
        lemma_visible_rows_ordered(db.comments, db.threads[uri_index(db.threads, path)].id);
    }
    lemma_ordered_forest_ok(listed_rows(db, path));
}

} // verus!
