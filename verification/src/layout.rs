//! The commit canvas: lanes for the main repository and its submodules,
//! commit cards placed by column and row, HEAD cards beside their commits,
//! and the parent, submodule and HEAD connections between cards.
//! Coordinates are whole canvas units.
use vstd::prelude::*;

use crate::columns::{branch_columns, branch_columns_spec, lemma_branch_columns_bounded};
use crate::models::{copy_entries, entry_views, link_view, texts, opt_text, copy_opt_string, labels_for, find_labels, CommitGraph, CommitGraphView, CommitLane, CommitLaneView, CommitLaneStatus, LogEntry, LogEntryView};
use crate::text::{abbreviate, push_str, same_text, take_chars};

verus! {

pub const NODE_WIDTH: i64 = 236;
pub const NODE_HEIGHT: i64 = 96;
pub const LANE_SPACING: i64 = 550;
pub const LANE_LEFT: i64 = 310;
pub const FIRST_NODE_TOP: i64 = 92;
pub const ROW_SPACING: i64 = 128;
/// Horizontal gap between a HEAD card and its commit card.
pub const HEAD_GAP: i64 = 28;
/// Cards closer than this margin count as overlapping.
pub const CARD_MARGIN: i64 = 8;
/// Vertical gap left below a card that a HEAD card is moved past.
pub const CARD_GAP: i64 = 12;

/// The height of a HEAD card listing `label_count` branch names.
pub open spec fn head_node_height(label_count: int) -> int {
    62 + label_count * 30
}

/// A position on the canvas.
#[derive(Clone, Copy, Debug, PartialEq, Eq, Structural)]
pub struct CanvasPoint {
    pub x: i64,
    pub y: i64,
}

impl CanvasPoint {
    pub fn new(x: i64, y: i64) -> (p: Self)
        ensures
            p.x == x && p.y == y,
    {
        CanvasPoint { x, y }
    }
}

/// The identity of a card: its lane and the commit it stands for.
#[derive(Clone, Debug)]
pub struct CanvasNodeId {
    pub lane_id: String,
    pub commit_id: String,
}

impl View for CanvasNodeId {
    type V = (Seq<char>, Seq<char>);

    open spec fn view(&self) -> (Seq<char>, Seq<char>) {
        (self.lane_id@, self.commit_id@)
    }
}

impl CanvasNodeId {
    pub fn copy(&self) -> (c: CanvasNodeId)
        ensures
            c@ == self@,
    {
        CanvasNodeId { lane_id: self.lane_id.clone(), commit_id: self.commit_id.clone() }
    }
}

#[derive(Clone, Copy, Debug, PartialEq, Eq, Structural)]
pub enum CanvasNodeKind {
    Commit,
    Placeholder,
    Head,
}

/// A card on the canvas.
#[derive(Clone, Debug)]
pub struct CanvasNode {
    pub id: CanvasNodeId,
    pub entry: Option<LogEntry>,
    pub head_labels: Vec<String>,
    pub kind: CanvasNodeKind,
    pub width: i64,
    pub height: i64,
    pub default_position: CanvasPoint,
}

/// The content of a card.
pub struct CanvasNodeView {
    pub id: (Seq<char>, Seq<char>),
    pub entry: Option<LogEntryView>,
    pub head_labels: Seq<Seq<char>>,
    pub kind: CanvasNodeKind,
    pub width: int,
    pub height: int,
    pub x: int,
    pub y: int,
}

pub open spec fn opt_entry_view(e: Option<LogEntry>) -> Option<LogEntryView> {
    match e {
        Some(entry) => Some(entry@),
        None => None,
    }
}

impl View for CanvasNode {
    type V = CanvasNodeView;

    open spec fn view(&self) -> CanvasNodeView {
        CanvasNodeView {
            id: self.id@,
            entry: opt_entry_view(self.entry),
            head_labels: texts(self.head_labels@),
            kind: self.kind,
            width: self.width as int,
            height: self.height as int,
            x: self.default_position.x as int,
            y: self.default_position.y as int,
        }
    }
}

#[derive(Clone, Copy, Debug, PartialEq, Eq, Structural)]
pub enum CanvasEdgeKind {
    Parent,
    Submodule,
    Head,
}

/// A connection between two cards.
#[derive(Clone, Debug)]
pub struct CanvasEdge {
    pub from: CanvasNodeId,
    pub to: CanvasNodeId,
    pub kind: CanvasEdgeKind,
}

/// The content of a connection.
pub struct CanvasEdgeView {
    pub from: (Seq<char>, Seq<char>),
    pub to: (Seq<char>, Seq<char>),
    pub kind: CanvasEdgeKind,
}

impl View for CanvasEdge {
    type V = CanvasEdgeView;

    open spec fn view(&self) -> CanvasEdgeView {
        CanvasEdgeView { from: self.from@, to: self.to@, kind: self.kind }
    }
}

/// A lane header on the canvas.
#[derive(Clone, Debug)]
pub struct CanvasLane {
    pub id: String,
    pub name: String,
    pub relative_path: Option<String>,
    pub status: CommitLaneStatus,
    pub x: i64,
}

/// The content of a lane header.
pub struct CanvasLaneView {
    pub id: Seq<char>,
    pub name: Seq<char>,
    pub relative_path: Option<Seq<char>>,
    pub status: CommitLaneStatus,
    pub x: int,
}

impl View for CanvasLane {
    type V = CanvasLaneView;

    open spec fn view(&self) -> CanvasLaneView {
        CanvasLaneView {
            id: self.id@,
            name: self.name@,
            relative_path: opt_text(self.relative_path),
            status: self.status,
            x: self.x as int,
        }
    }
}

/// The entries that the list view shows.
#[derive(Clone, Debug)]
pub struct LogListLayout {
    pub entries: Vec<LogEntry>,
}

/// The whole canvas for one repository.
#[derive(Clone, Debug)]
pub struct CommitCanvasLayout {
    pub repository_path: String,
    pub lanes: Vec<CanvasLane>,
    pub nodes: Vec<CanvasNode>,
    pub edges: Vec<CanvasEdge>,
    pub list: LogListLayout,
}

#[derive(Clone, Copy, Debug, PartialEq, Eq, Structural)]
pub enum LogViewMode {
    List,
    Canvas,
}

// ---------------------------------------------------------------------------
// What the layout is.

/// The largest value of a sequence of columns, or 0 for none.
pub open spec fn seq_max(s: Seq<int>) -> int
    decreases s.len(),
{
    if s.len() == 0 {
        0
    } else {
        let m = seq_max(s.drop_last());
        if s.last() > m {
            s.last()
        } else {
            m
        }
    }
}

/// How many columns a lane occupies.
pub open spec fn lane_width(lane: CommitLaneView) -> int {
    seq_max(branch_columns_spec(lane.entries)) + 1
}

/// The last lane with this id among the first `k` lanes, or the number of
/// lanes when there is none.
pub open spec fn last_lane_index(lanes: Seq<CommitLaneView>, id: Seq<char>, k: int) -> int
    decreases k,
{
    if k <= 0 || k > lanes.len() {
        lanes.len() as int
    } else if lanes[k - 1].id == id {
        k - 1
    } else {
        last_lane_index(lanes, id, k - 1)
    }
}

/// The lane whose columns and left edge the cards of lane `k` take: lanes
/// are looked up by id, and of lanes sharing an id the last one counts.
/// With distinct ids, each lane is its own.
pub open spec fn keyed_lane(lanes: Seq<CommitLaneView>, k: int) -> int {
    last_lane_index(lanes, lanes[k].id, lanes.len() as int)
}

/// The left edge of lane `k`: lanes are laid out left to right, each as wide
/// as the columns it is looked up by.
pub open spec fn lane_x(lanes: Seq<CommitLaneView>, k: int) -> int
    decreases k,
{
    if k <= 0 {
        LANE_LEFT as int
    } else {
        lane_x(lanes, k - 1) + LANE_SPACING * lane_width(lanes[keyed_lane(lanes, k - 1)])
    }
}

/// The header of lane `k`.
pub open spec fn lane_header(lanes: Seq<CommitLaneView>, k: int) -> CanvasLaneView {
    CanvasLaneView {
        id: lanes[k].id,
        name: lanes[k].name,
        relative_path: lanes[k].relative_path,
        status: lanes[k].status,
        x: lane_x(lanes, k),
    }
}

/// The column of entry `i` of lane `k`, in the columns of the lane it is
/// looked up by.
pub open spec fn column_of(g: CommitGraphView, k: int, i: int) -> int {
    branch_columns_spec(g.lanes[keyed_lane(g.lanes, k)].entries)[i]
}

/// The card of entry `i` of lane `k`: in its column, one row per entry.
pub open spec fn commit_node(g: CommitGraphView, k: int, i: int) -> CanvasNodeView {
    CanvasNodeView {
        id: (g.lanes[k].id, g.lanes[k].entries[i].full_hash),
        entry: Some(g.lanes[k].entries[i]),
        head_labels: Seq::empty(),
        kind: CanvasNodeKind::Commit,
        width: NODE_WIDTH as int,
        height: NODE_HEIGHT as int,
        x: lane_x(g.lanes, keyed_lane(g.lanes, k)) + LANE_SPACING * column_of(g, k, i),
        y: FIRST_NODE_TOP + ROW_SPACING * i,
    }
}

/// The branch names shown beside entry `i` of lane `k`: only the main lane
/// shows them.
pub open spec fn head_labels_at(g: CommitGraphView, k: int, i: int) -> Seq<Seq<char>> {
    if g.lanes[k].id == "main"@ {
        labels_for(g.head_labels, g.lanes[k].entries[i].full_hash)
    } else {
        Seq::empty()
    }
}

/// The identity of the HEAD card of a commit.
pub open spec fn head_id(commit: Seq<char>) -> (Seq<char>, Seq<char>) {
    ("heads"@, "head:"@ + commit)
}

/// The HEAD card of entry `i` of lane `k` before it is moved clear of other
/// cards: left of the commit card, at its height.
pub open spec fn head_node(g: CommitGraphView, k: int, i: int) -> CanvasNodeView {
    CanvasNodeView {
        id: head_id(g.lanes[k].entries[i].full_hash),
        entry: None,
        head_labels: head_labels_at(g, k, i),
        kind: CanvasNodeKind::Head,
        width: NODE_WIDTH as int,
        height: head_node_height(head_labels_at(g, k, i).len() as int),
        x: commit_node(g, k, i).x - NODE_WIDTH - HEAD_GAP,
        y: commit_node(g, k, i).y,
    }
}

/// The cards of one entry: its HEAD card when it has branch names, then its
/// commit card.
pub open spec fn entry_nodes(g: CommitGraphView, k: int, i: int) -> Seq<CanvasNodeView> {
    if head_labels_at(g, k, i).len() > 0 {
        seq![head_node(g, k, i), commit_node(g, k, i)]
    } else {
        seq![commit_node(g, k, i)]
    }
}

/// The cards of the first `n` entries of lane `k`.
pub open spec fn lane_nodes(g: CommitGraphView, k: int, n: int) -> Seq<CanvasNodeView>
    decreases n,
{
    if n <= 0 {
        Seq::empty()
    } else {
        lane_nodes(g, k, n - 1) + entry_nodes(g, k, n - 1)
    }
}

/// The cards of the first `m` lanes, before HEAD cards are moved.
pub open spec fn placed_nodes(g: CommitGraphView, m: int) -> Seq<CanvasNodeView>
    decreases m,
{
    if m <= 0 {
        Seq::empty()
    } else {
        placed_nodes(g, m - 1) + lane_nodes(g, m - 1, g.lanes[m - 1].entries.len() as int)
    }
}

/// The HEAD connection of one entry, when it has a HEAD card.
pub open spec fn entry_head_edges(g: CommitGraphView, k: int, i: int) -> Seq<CanvasEdgeView> {
    if head_labels_at(g, k, i).len() > 0 {
        seq![
            CanvasEdgeView {
                from: head_id(g.lanes[k].entries[i].full_hash),
                to: (g.lanes[k].id, g.lanes[k].entries[i].full_hash),
                kind: CanvasEdgeKind::Head,
            },
        ]
    } else {
        Seq::empty()
    }
}

pub open spec fn lane_head_edges(g: CommitGraphView, k: int, n: int) -> Seq<CanvasEdgeView>
    decreases n,
{
    if n <= 0 {
        Seq::empty()
    } else {
        lane_head_edges(g, k, n - 1) + entry_head_edges(g, k, n - 1)
    }
}

/// The HEAD connections of the first `m` lanes.
pub open spec fn head_edges(g: CommitGraphView, m: int) -> Seq<CanvasEdgeView>
    decreases m,
{
    if m <= 0 {
        Seq::empty()
    } else {
        head_edges(g, m - 1) + lane_head_edges(g, m - 1, g.lanes[m - 1].entries.len() as int)
    }
}

/// Lane ids name lanes: no two lanes share one.
pub open spec fn distinct_lane_ids(g: CommitGraphView) -> bool {
    forall|a: int, b: int|
        0 <= a < b < g.lanes.len() ==> (#[trigger] g.lanes[a]).id != (#[trigger] g.lanes[b]).id
}

/// Every lane has a column for each of its entries: the lane it is looked
/// up by holds at least as many entries.
pub open spec fn lanes_have_columns(g: CommitGraphView) -> bool {
    forall|k: int|
        0 <= k < g.lanes.len() ==> g.lanes[k].entries.len() <= g.lanes[#[trigger] keyed_lane(g.lanes, k)].entries.len()
}


/// Whether card `a` comes within the margin of card `b`.
pub open spec fn overlaps(a: CanvasNodeView, b: CanvasNodeView) -> bool {
    &&& a.x < b.x + b.width + CARD_MARGIN
    &&& a.x + a.width + CARD_MARGIN > b.x
    &&& a.y < b.y + b.height + CARD_MARGIN
    &&& a.y + a.height + CARD_MARGIN > b.y
}

/// Whether card `j` stands in the way of card `index`: any other card that
/// it overlaps, except HEAD cards that have not been moved yet.
pub open spec fn blocks(nodes: Seq<CanvasNodeView>, index: int, j: int) -> bool {
    &&& j != index
    &&& !(nodes[j].kind == CanvasNodeKind::Head && j > index)
    &&& overlaps(nodes[index], nodes[j])
}

/// The first card at or after `j` that stands in the way of card `index`,
/// or the number of cards.
pub open spec fn first_blocker(nodes: Seq<CanvasNodeView>, index: int, j: int) -> int
    decreases nodes.len() - j,
{
    if j < 0 || j >= nodes.len() {
        nodes.len() as int
    } else if blocks(nodes, index, j) {
        j
    } else {
        first_blocker(nodes, index, j + 1)
    }
}

/// The top edge just clear of a card.
pub open spec fn clearance(n: CanvasNodeView) -> int {
    n.y + n.height + CARD_GAP
}

/// The lowest clearance of all cards.
pub open spec fn max_clearance(nodes: Seq<CanvasNodeView>) -> int
    decreases nodes.len(),
{
    if nodes.len() == 0 {
        0
    } else {
        let m = max_clearance(nodes.drop_last());
        if clearance(nodes.last()) > m {
            clearance(nodes.last())
        } else {
            m
        }
    }
}

/// Card `index` moved down past the first card in its way, again and again,
/// until nothing is in its way. Each move goes strictly down and no lower
/// than `bound`.
pub open spec fn settle(nodes: Seq<CanvasNodeView>, index: int, bound: int) -> Seq<CanvasNodeView>
    decreases bound - nodes[index].y,
{
    let f = first_blocker(nodes, index, 0);
    if 0 <= index < nodes.len() && 0 <= f < nodes.len() && nodes[index].y < clearance(nodes[f])
        <= bound {
        settle(nodes.update(index, CanvasNodeView { y: clearance(nodes[f]), ..nodes[index] }), index, bound)
    } else {
        nodes
    }
}

pub proof fn lemma_settle_len(nodes: Seq<CanvasNodeView>, index: int, bound: int)
    ensures
        settle(nodes, index, bound).len() == nodes.len(),
    decreases bound - nodes[index].y,
{
    let f = first_blocker(nodes, index, 0);
    if 0 <= index < nodes.len() && 0 <= f < nodes.len() && nodes[index].y < clearance(nodes[f]) <= bound {
        lemma_settle_len(nodes.update(index, CanvasNodeView { y: clearance(nodes[f]), ..nodes[index] }), index, bound);
    }
}

/// HEAD cards from position `i` on, each moved clear of the cards before it
/// and of all commit and placeholder cards.
pub open spec fn settle_heads_from(nodes: Seq<CanvasNodeView>, i: int) -> Seq<CanvasNodeView>
    decreases nodes.len() - i,
{
    if i < 0 || i >= nodes.len() {
        nodes
    } else {
        let next = if nodes[i].kind == CanvasNodeKind::Head {
            settle(nodes, i, max_clearance(nodes))
        } else {
            nodes
        };
        proof {
            lemma_settle_len(nodes, i, max_clearance(nodes));
        }
        settle_heads_from(next, i + 1)
    }
}

/// Whether a lane lists a commit.
pub open spec fn lane_has_commit(lane: CommitLaneView, c: Seq<char>) -> bool {
    exists|j: int| 0 <= j < lane.entries.len() && (#[trigger] lane.entries[j]).full_hash == c
}

/// Whether the graph holds a commit card with this identity.
pub open spec fn graph_has_commit(g: CommitGraphView, id: (Seq<char>, Seq<char>)) -> bool {
    exists|k: int| 0 <= k < g.lanes.len() && (#[trigger] g.lanes[k]).id == id.0 && lane_has_commit(g.lanes[k], id.1)
}

/// The connections from entry `i` of lane `k` to the first `n` of its
/// parents, for the parents that have a card in the same lane.
pub open spec fn entry_parent_edges(g: CommitGraphView, k: int, i: int, n: int) -> Seq<CanvasEdgeView>
    decreases n,
{
    if n <= 0 {
        Seq::empty()
    } else {
        let lane = g.lanes[k];
        let p = lane.entries[i].parent_hashes[n - 1];
        entry_parent_edges(g, k, i, n - 1) + if graph_has_commit(g, (lane.id, p)) {
            seq![
                CanvasEdgeView {
                    from: (lane.id, lane.entries[i].full_hash),
                    to: (lane.id, p),
                    kind: CanvasEdgeKind::Parent,
                },
            ]
        } else {
            Seq::empty()
        }
    }
}

pub open spec fn lane_parent_edges(g: CommitGraphView, k: int, n: int) -> Seq<CanvasEdgeView>
    decreases n,
{
    if n <= 0 {
        Seq::empty()
    } else {
        lane_parent_edges(g, k, n - 1) + entry_parent_edges(
            g,
            k,
            n - 1,
            g.lanes[k].entries[n - 1].parent_hashes.len() as int,
        )
    }
}

/// The parent connections of the first `m` lanes.
pub open spec fn parent_edges(g: CommitGraphView, m: int) -> Seq<CanvasEdgeView>
    decreases m,
{
    if m <= 0 {
        Seq::empty()
    } else {
        parent_edges(g, m - 1) + lane_parent_edges(g, m - 1, g.lanes[m - 1].entries.len() as int)
    }
}

/// Whether a card with this identity exists: a commit card of the graph or
/// a placeholder added so far.
pub open spec fn known_card(g: CommitGraphView, extra: Seq<CanvasNodeView>, id: (Seq<char>, Seq<char>)) -> bool {
    graph_has_commit(g, id) || exists|j: int| 0 <= j < extra.len() && (#[trigger] extra[j]).id == id
}

/// The position of the lane with this id, or the number of lanes.
pub open spec fn lane_index(lanes: Seq<CommitLaneView>, id: Seq<char>, k: int) -> int
    decreases lanes.len() - k,
{
    if k < 0 || k >= lanes.len() {
        lanes.len() as int
    } else if lanes[k].id == id {
        k
    } else {
        lane_index(lanes, id, k + 1)
    }
}

/// The top edge of the last card with this identity, or the first row.
pub open spec fn row_of(cards: Seq<CanvasNodeView>, id: (Seq<char>, Seq<char>)) -> int
    decreases cards.len(),
{
    if cards.len() == 0 {
        FIRST_NODE_TOP as int
    } else if cards.last().id == id {
        cards.last().y
    } else {
        row_of(cards.drop_last(), id)
    }
}

/// The card that stands for a submodule commit the graph did not load.
pub open spec fn placeholder(id: (Seq<char>, Seq<char>), x: int, y: int) -> CanvasNodeView {
    CanvasNodeView {
        id,
        entry: None,
        head_labels: Seq::empty(),
        kind: CanvasNodeKind::Placeholder,
        width: NODE_WIDTH as int,
        height: NODE_HEIGHT as int,
        x,
        y,
    }
}

/// One submodule link: when its main commit has a card, connect it to the
/// submodule commit's card, first adding a placeholder beside the main
/// commit when the submodule commit has none and its lane exists.
pub open spec fn link_step(
    g: CommitGraphView,
    settled: Seq<CanvasNodeView>,
    state: (Seq<CanvasNodeView>, Seq<CanvasEdgeView>),
    link: (Seq<char>, Seq<char>, Seq<char>),
) -> (Seq<CanvasNodeView>, Seq<CanvasEdgeView>) {
    let from = ("main"@, link.0);
    let to = (link.1, link.2);
    let edge = CanvasEdgeView { from, to, kind: CanvasEdgeKind::Submodule };
    let lane = last_lane_index(g.lanes, link.1, g.lanes.len() as int);
    if !known_card(g, state.0, from) {
        state
    } else if known_card(g, state.0, to) {
        (state.0, state.1.push(edge))
    } else if lane < g.lanes.len() {
        (state.0.push(placeholder(to, lane_x(g.lanes, lane), row_of(settled, from))), state.1.push(edge))
    } else {
        state
    }
}

/// The placeholders and submodule connections of the first `n` links.
pub open spec fn links_upto(g: CommitGraphView, settled: Seq<CanvasNodeView>, n: int) -> (Seq<CanvasNodeView>, Seq<CanvasEdgeView>)
    decreases n,
{
    if n <= 0 {
        (Seq::empty(), Seq::empty())
    } else {
        link_step(g, settled, links_upto(g, settled, n - 1), g.submodule_links[n - 1])
    }
}

/// The content of a whole canvas.
pub struct CommitCanvasLayoutView {
    pub repository_path: Seq<char>,
    pub lanes: Seq<CanvasLaneView>,
    pub nodes: Seq<CanvasNodeView>,
    pub edges: Seq<CanvasEdgeView>,
    pub list: Seq<LogEntryView>,
}

impl View for CommitCanvasLayout {
    type V = CommitCanvasLayoutView;

    open spec fn view(&self) -> CommitCanvasLayoutView {
        CommitCanvasLayoutView {
            repository_path: self.repository_path@,
            lanes: self.lanes@.map_values(|l: CanvasLane| l@),
            nodes: self.nodes@.map_values(|n: CanvasNode| n@),
            edges: self.edges@.map_values(|e: CanvasEdge| e@),
            list: entry_views(self.list.entries@),
        }
    }
}

/// The cards of a graph after HEAD cards have moved clear.
pub open spec fn settled_nodes(g: CommitGraphView) -> Seq<CanvasNodeView> {
    settle_heads_from(placed_nodes(g, g.lanes.len() as int), 0)
}

/// The entries of the main lane, which the list view shows.
pub open spec fn main_entries(g: CommitGraphView) -> Seq<LogEntryView> {
    let k = lane_index(g.lanes, "main"@, 0);
    if k < g.lanes.len() {
        g.lanes[k].entries
    } else {
        Seq::empty()
    }
}

/// The canvas of a commit graph: one header per lane; commit and HEAD cards
/// with HEAD cards moved clear, then placeholders for linked submodule
/// commits that were not loaded; HEAD, parent, then submodule connections.
pub open spec fn canvas_of(g: CommitGraphView) -> CommitCanvasLayoutView {
    let settled = settled_nodes(g);
    let links = links_upto(g, settled, g.submodule_links.len() as int);
    CommitCanvasLayoutView {
        repository_path: g.repository_path,
        lanes: Seq::new(g.lanes.len(), |k: int| lane_header(g.lanes, k)),
        nodes: settled + links.0,
        edges: head_edges(g, g.lanes.len() as int) + parent_edges(g, g.lanes.len() as int) + links.1,
        list: main_entries(g),
    }
}

/// Whether a value is representable as `i64`.
pub open spec fn fits_i64(v: int) -> bool {
    i64::MIN <= v <= i64::MAX
}

/// Whether a card's position and size are representable as `i64`.
pub open spec fn card_fits(n: CanvasNodeView) -> bool {
    fits_i64(n.x) && fits_i64(n.y) && fits_i64(n.width) && fits_i64(n.height)
}

/// Whether every lane position and every card's position and size on a
/// canvas are representable as `i64`, the canvas's coordinate type.
pub open spec fn canvas_fits(c: CommitCanvasLayoutView) -> bool {
    &&& forall|k: int| 0 <= k < c.lanes.len() ==> fits_i64(#[trigger] c.lanes[k].x)
    &&& forall|j: int| 0 <= j < c.nodes.len() ==> card_fits(#[trigger] c.nodes[j])
}

// ---------------------------------------------------------------------------
// Computing the layout.

pub open spec fn node_views(v: Seq<CanvasNode>) -> Seq<CanvasNodeView> {
    v.map_values(|n: CanvasNode| n@)
}

pub open spec fn edge_views(v: Seq<CanvasEdge>) -> Seq<CanvasEdgeView> {
    v.map_values(|e: CanvasEdge| e@)
}

pub open spec fn lane_views(v: Seq<CanvasLane>) -> Seq<CanvasLaneView> {
    v.map_values(|l: CanvasLane| l@)
}

/// The largest column, with its spec value.
fn max_column(columns: &Vec<usize>) -> (m: usize)
    ensures
        m as int == seq_max(columns@.map_values(|c: usize| c as int)),
{
    let ghost cs = columns@.map_values(|c: usize| c as int);
    let mut m: usize = 0;
    let mut i: usize = 0;
    assert(cs.take(0).len() == 0);
    while i < columns.len()
        invariant
            i <= columns.len(),
            cs == columns@.map_values(|c: usize| c as int),
            m as int == seq_max(cs.take(i as int)),
        decreases columns.len() - i,
    {
        assert(cs.take(i + 1).drop_last() == cs.take(i as int));
        assert(cs.take(i + 1).last() == columns@[i as int] as int);
        if columns[i] > m {
            m = columns[i];
        }
        i = i + 1;
    }
    assert(cs.take(columns.len() as int) == cs);
    m
}

/// The columns of every lane.
fn lane_columns(graph: &CommitGraph) -> (columns: Vec<Vec<usize>>)
    ensures
        columns@.len() == graph@.lanes.len(),
        forall|k: int| 0 <= k < columns@.len() ==> (#[trigger] columns@[k])@.map_values(|c: usize| c as int)
            == branch_columns_spec(graph@.lanes[k].entries),
{
    let mut columns: Vec<Vec<usize>> = Vec::new();
    let mut k: usize = 0;
    while k < graph.lanes.len()
        invariant
            k <= graph.lanes.len(),
            columns@.len() == k,
            forall|j: int| 0 <= j < k ==> (#[trigger] columns@[j])@.map_values(|c: usize| c as int)
                == branch_columns_spec(graph@.lanes[j].entries),
        decreases graph.lanes.len() - k,
    {
        let cols = branch_columns(&graph.lanes[k].entries);
        assert(graph@.lanes[k as int] == graph.lanes@[k as int]@);
        proof {
            lemma_branch_columns_bounded(graph@.lanes[k as int].entries);
            assert(graph@.lanes[k as int].entries == entry_views(graph.lanes@[k as int].entries@));
        }
        assert(cols@.map_values(|c: usize| c as int) =~= branch_columns_spec(graph@.lanes[k as int].entries));
        columns.push(cols);
        k = k + 1;
    }
    columns
}


proof fn lemma_seq_max_nonneg(s: Seq<int>)
    ensures
        seq_max(s) >= 0,
    decreases s.len(),
{
    if s.len() > 0 {
        lemma_seq_max_nonneg(s.drop_last());
    }
}

/// Lanes start at the left edge and go right.
proof fn lemma_lane_x_from_left(lanes: Seq<CommitLaneView>, k: int)
    ensures
        LANE_LEFT <= lane_x(lanes, k),
    decreases k,
{
    if k > 0 {
        lemma_lane_x_from_left(lanes, k - 1);
        lemma_seq_max_nonneg(branch_columns_spec(lanes[keyed_lane(lanes, k - 1)].entries));
    }
}

/// `base + count * step + extra`, when it is representable as `i64`.
fn offset(base: i64, count: usize, step: i64, extra: i64) -> (r: Option<i64>)
    requires
        0 <= base,
        0 <= step <= 1024,
        0 <= extra <= 1024,
    ensures
        match r {
            Some(v) => v == base + count * step + extra,
            None => base + count * step + extra > i64::MAX,
        },
{
    let n = count as u128;
    let d = step as u128;
    assert(n * d <= 0xffff_ffff_ffff_ffffu128 * 1024) by (nonlinear_arith)
        requires
            n <= 0xffff_ffff_ffff_ffffu128,
            d <= 1024,
    ;
    let total = base as u128 + n * d + extra as u128;
    if total > i64::MAX as u128 {
        None
    } else {
        Some(total as i64)
    }
}

/// The lane headers and their left edges; `None` when some lane's left edge
/// is beyond the `i64` range.
fn layout_lanes(graph: &CommitGraph, columns: &Vec<Vec<usize>>, keyed: &Vec<usize>) -> (result: Option<(
    Vec<CanvasLane>,
    Vec<i64>,
)>)
    requires
        columns@.len() == graph@.lanes.len(),
        keyed@.len() == graph@.lanes.len(),
        forall|k: int| 0 <= k < keyed@.len() ==> (#[trigger] keyed@[k]) as int == keyed_lane(graph@.lanes, k),
        forall|k: int| 0 <= k < keyed@.len() ==> k <= #[trigger] keyed@[k] < graph@.lanes.len(),
        forall|k: int| 0 <= k < columns@.len() ==> (#[trigger] columns@[k])@.map_values(|c: usize| c as int)
            == branch_columns_spec(graph@.lanes[k].entries),
    ensures
        match result {
            Some(r) => {
                &&& r.0@.len() == graph@.lanes.len()
                &&& r.1@.len() == graph@.lanes.len()
                &&& forall|k: int| 0 <= k < graph@.lanes.len() ==> (#[trigger] r.0@[k])@ == lane_header(graph@.lanes, k)
                &&& forall|k: int| 0 <= k < graph@.lanes.len() ==> (#[trigger] r.1@[k]) as int == lane_x(graph@.lanes, k)
            },
            None => exists|k: int| 0 <= k < graph@.lanes.len() && #[trigger] lane_x(graph@.lanes, k) > i64::MAX,
        },
{
    let ghost g = graph@;
    let mut lanes: Vec<CanvasLane> = Vec::new();
    let mut xs: Vec<i64> = Vec::new();
    let mut k: usize = 0;
    while k < graph.lanes.len()
        invariant
            k <= graph.lanes.len(),
            g == graph@,
            columns@.len() == g.lanes.len(),
            keyed@.len() == g.lanes.len(),
            forall|j: int| 0 <= j < keyed@.len() ==> (#[trigger] keyed@[j]) as int == keyed_lane(g.lanes, j),
            forall|j: int| 0 <= j < keyed@.len() ==> j <= #[trigger] keyed@[j] < g.lanes.len(),
            forall|j: int| 0 <= j < columns@.len() ==> (#[trigger] columns@[j])@.map_values(|c: usize| c as int)
                == branch_columns_spec(g.lanes[j].entries),
            lanes@.len() == k,
            xs@.len() == k,
            forall|j: int| 0 <= j < k ==> (#[trigger] lanes@[j])@ == lane_header(g.lanes, j),
            forall|j: int| 0 <= j < k ==> (#[trigger] xs@[j]) as int == lane_x(g.lanes, j),
        decreases graph.lanes.len() - k,
    {
        let lane = &graph.lanes[k];
        assert(g.lanes[k as int] == lane@);
        let x = if k == 0 {
            LANE_LEFT
        } else {
            let source = keyed[k - 1];
            assert(source as int == keyed_lane(g.lanes, k - 1));
            let previous = max_column(&columns[source]);
            assert(previous as int + 1 == lane_width(g.lanes[keyed_lane(g.lanes, k - 1)]));
            proof {
                lemma_lane_x_from_left(g.lanes, k - 1);
            }
            match offset(xs[k - 1], previous, LANE_SPACING, LANE_SPACING) {
                Some(x) => x,
                None => {
                    assert(lane_x(g.lanes, k as int) > i64::MAX);
                    return None;
                },
            }
        };
        assert(x as int == lane_x(g.lanes, k as int));
        lanes.push(CanvasLane {
            id: lane.id.clone(),
            name: lane.name.clone(),
            relative_path: copy_opt_string(&lane.relative_path),
            status: lane.status,
            x,
        });
        xs.push(x);
        k = k + 1;
    }
    Some((lanes, xs))
}

fn text_of(literal: &str) -> (s: String)
    ensures
        s@ == literal@,
{
    let mut s = String::new();
    push_str(&mut s, literal);
    assert(s@ =~= literal@);
    s
}

/// The identity of the HEAD card of a commit.
fn make_head_id(commit: &String) -> (id: CanvasNodeId)
    ensures
        id@ == head_id(commit@),
{
    let lane_id = text_of("heads");
    let mut commit_id = text_of("head:");
    push_str(&mut commit_id, commit.as_str());
    CanvasNodeId { lane_id, commit_id }
}

/// Whether the cards of entry `i` of lane `k` are placed beyond the `i64`
/// range: the commit card's position, or the height of its HEAD card.
pub open spec fn placement_overflows(g: CommitGraphView, k: int, i: int) -> bool {
    &&& 0 <= k < g.lanes.len()
    &&& 0 <= i < g.lanes[k].entries.len()
    &&& {
        ||| commit_node(g, k, i).x > i64::MAX
        ||| commit_node(g, k, i).y > i64::MAX
        ||| head_labels_at(g, k, i).len() > 0 && head_node(g, k, i).height > i64::MAX
    }
}

/// The commit and HEAD cards of every lane, and the HEAD connections;
/// `None` when some card is placed beyond the `i64` range.
fn place_nodes(graph: &CommitGraph, columns: &Vec<Vec<usize>>, keyed: &Vec<usize>, xs: &Vec<i64>) -> (result: Option<(
    Vec<CanvasNode>,
    Vec<CanvasEdge>,
)>)
    requires
        lanes_have_columns(graph@),
        keyed@.len() == graph@.lanes.len(),
        forall|k: int| 0 <= k < keyed@.len() ==> (#[trigger] keyed@[k]) as int == keyed_lane(graph@.lanes, k),
        forall|k: int| 0 <= k < keyed@.len() ==> k <= #[trigger] keyed@[k] < graph@.lanes.len(),
        columns@.len() == graph@.lanes.len(),
        xs@.len() == graph@.lanes.len(),
        forall|k: int| 0 <= k < columns@.len() ==> (#[trigger] columns@[k])@.map_values(|c: usize| c as int)
            == branch_columns_spec(graph@.lanes[k].entries),
        forall|k: int| 0 <= k < graph@.lanes.len() ==> (#[trigger] xs@[k]) as int == lane_x(graph@.lanes, k),
    ensures
        match result {
            Some(r) => {
                &&& node_views(r.0@) == placed_nodes(graph@, graph@.lanes.len() as int)
                &&& edge_views(r.1@) == head_edges(graph@, graph@.lanes.len() as int)
            },
            None => exists|k: int, i: int| #[trigger] placement_overflows(graph@, k, i),
        },
{
    let ghost g = graph@;
    let mut nodes: Vec<CanvasNode> = Vec::new();
    let mut edges: Vec<CanvasEdge> = Vec::new();
    let mut k: usize = 0;
    assert(node_views(nodes@) =~= placed_nodes(g, 0));
    assert(edge_views(edges@) =~= head_edges(g, 0));
    while k < graph.lanes.len()
        invariant
            k <= graph.lanes.len(),
            g == graph@,
            lanes_have_columns(g),
            keyed@.len() == g.lanes.len(),
            forall|j: int| 0 <= j < keyed@.len() ==> (#[trigger] keyed@[j]) as int == keyed_lane(g.lanes, j),
            forall|j: int| 0 <= j < keyed@.len() ==> j <= #[trigger] keyed@[j] < g.lanes.len(),
            columns@.len() == g.lanes.len(),
            xs@.len() == g.lanes.len(),
            forall|j: int| 0 <= j < columns@.len() ==> (#[trigger] columns@[j])@.map_values(|c: usize| c as int)
                == branch_columns_spec(g.lanes[j].entries),
            forall|j: int| 0 <= j < g.lanes.len() ==> (#[trigger] xs@[j]) as int == lane_x(g.lanes, j),
            node_views(nodes@) == placed_nodes(g, k as int),
            edge_views(edges@) == head_edges(g, k as int),
        decreases graph.lanes.len() - k,
    {
        let lane = &graph.lanes[k];
        let ghost lv = g.lanes[k as int];
        assert(lv == lane@);
        let is_main = same_text(lane.id.as_str(), "main");
        let source = keyed[k];
        let ghost sk = keyed_lane(g.lanes, k as int);
        assert(source as int == sk);
        let x = xs[source];
        let cols = &columns[source];
        proof {
            lemma_branch_columns_bounded(g.lanes[sk].entries);
            lemma_lane_x_from_left(g.lanes, sk);
            assert(lv.entries.len() <= g.lanes[keyed_lane(g.lanes, k as int)].entries.len());
        }
        let ghost base_nodes = node_views(nodes@);
        let ghost base_edges = edge_views(edges@);
        let mut i: usize = 0;
        assert(node_views(nodes@) =~= base_nodes + lane_nodes(g, k as int, 0));
        assert(edge_views(edges@) =~= base_edges + lane_head_edges(g, k as int, 0));
        while i < lane.entries.len()
            invariant
                k < g.lanes.len(),
                i <= lane.entries.len(),
                g == graph@,
                lv == g.lanes[k as int],
                lv == lane@,
                lane == &graph.lanes@[k as int],
                sk == keyed_lane(g.lanes, k as int),
                0 <= sk < g.lanes.len(),
                cols == &columns@[sk],
                cols@.map_values(|c: usize| c as int) == branch_columns_spec(g.lanes[sk].entries),
                is_main == (lv.id == "main"@),
                x as int == lane_x(g.lanes, sk),
                LANE_LEFT <= x,
                branch_columns_spec(g.lanes[sk].entries).len() == g.lanes[sk].entries.len(),
                lv.entries.len() <= g.lanes[sk].entries.len(),
                node_views(nodes@) == base_nodes + lane_nodes(g, k as int, i as int),
                edge_views(edges@) == base_edges + lane_head_edges(g, k as int, i as int),
            decreases lane.entries.len() - i,
        {
            let entry = &lane.entries[i];
            assert(lv.entries[i as int] == entry@);
            let col = cols[i];
            assert(col as int == branch_columns_spec(g.lanes[sk].entries)[i as int]);
            let node_x = match offset(x, col, LANE_SPACING, 0) {
                Some(v) => v,
                None => {
                    assert(placement_overflows(g, k as int, i as int));
                    return None;
                },
            };
            let node_y = match offset(FIRST_NODE_TOP, i, ROW_SPACING, 0) {
                Some(v) => v,
                None => {
                    assert(placement_overflows(g, k as int, i as int));
                    return None;
                },
            };
            let labels = if is_main {
                find_labels(&graph.head_labels, &entry.full_hash)
            } else {
                Vec::new()
            };
            assert(texts(labels@) =~= head_labels_at(g, k as int, i as int));
            let ghost before_nodes = node_views(nodes@);
            let ghost before_edges = edge_views(edges@);
            if labels.len() > 0 {
                let height = match offset(62, labels.len(), 30, 0) {
                    Some(v) => v,
                    None => {
                        assert(placement_overflows(g, k as int, i as int));
                        return None;
                    },
                };
                let head = make_head_id(&entry.full_hash);
                let head_edge = CanvasEdge {
                    from: head.copy(),
                    to: CanvasNodeId { lane_id: lane.id.clone(), commit_id: entry.full_hash.clone() },
                    kind: CanvasEdgeKind::Head,
                };
                nodes.push(CanvasNode {
                    id: head,
                    entry: None,
                    head_labels: labels,
                    kind: CanvasNodeKind::Head,
                    width: NODE_WIDTH,
                    height,
                    default_position: CanvasPoint { x: node_x - NODE_WIDTH - HEAD_GAP, y: node_y },
                });
                edges.push(head_edge);
            }
            let no_labels: Vec<String> = Vec::new();
            assert(texts(no_labels@) =~= Seq::<Seq<char>>::empty());
            nodes.push(CanvasNode {
                id: CanvasNodeId { lane_id: lane.id.clone(), commit_id: entry.full_hash.clone() },
                entry: Some(entry.copy()),
                head_labels: no_labels,
                kind: CanvasNodeKind::Commit,
                width: NODE_WIDTH,
                height: NODE_HEIGHT,
                default_position: CanvasPoint { x: node_x, y: node_y },
            });
            proof {
                let cn = commit_node(g, k as int, i as int);
                assert(node_views(nodes@).last() == cn);
                if head_labels_at(g, k as int, i as int).len() > 0 {
                    assert(node_views(nodes@)[nodes@.len() - 2] == head_node(g, k as int, i as int));
                    assert(node_views(nodes@) =~= before_nodes + entry_nodes(g, k as int, i as int));
                    assert(edge_views(edges@) =~= before_edges + entry_head_edges(g, k as int, i as int));
                } else {
                    assert(node_views(nodes@) =~= before_nodes + entry_nodes(g, k as int, i as int));
                    assert(edge_views(edges@) =~= before_edges + entry_head_edges(g, k as int, i as int));
                }
                assert(lane_nodes(g, k as int, i + 1) == lane_nodes(g, k as int, i as int) + entry_nodes(g, k as int, i as int));
                assert(lane_head_edges(g, k as int, i + 1) == lane_head_edges(g, k as int, i as int) + entry_head_edges(g, k as int, i as int));
                assert(node_views(nodes@) =~= base_nodes + lane_nodes(g, k as int, i + 1));
                assert(edge_views(edges@) =~= base_edges + lane_head_edges(g, k as int, i + 1));
            }
            i = i + 1;
        }
        assert(placed_nodes(g, k + 1) == placed_nodes(g, k as int) + lane_nodes(g, k as int, lv.entries.len() as int));
        assert(head_edges(g, k + 1) == head_edges(g, k as int) + lane_head_edges(g, k as int, lv.entries.len() as int));
        k = k + 1;
    }
    Some((nodes, edges))
}


/// The same card, possibly moved down.
pub open spec fn moved_down(before: CanvasNodeView, after: CanvasNodeView) -> bool {
    &&& after == CanvasNodeView { y: after.y, ..before }
    &&& before.y <= after.y
}

/// Settling a card moves only that card, and only down.
proof fn lemma_settle_moves_down(nodes: Seq<CanvasNodeView>, index: int, bound: int)
    requires
        0 <= index < nodes.len(),
    ensures
        settle(nodes, index, bound).len() == nodes.len(),
        forall|j: int| 0 <= j < nodes.len() && j != index ==> #[trigger] settle(nodes, index, bound)[j] == nodes[j],
        moved_down(nodes[index], settle(nodes, index, bound)[index]),
    decreases bound - nodes[index].y,
{
    let f = first_blocker(nodes, index, 0);
    if 0 <= f < nodes.len() && nodes[index].y < clearance(nodes[f]) <= bound {
        let next = nodes.update(index, CanvasNodeView { y: clearance(nodes[f]), ..nodes[index] });
        lemma_settle_moves_down(next, index, bound);
        assert forall|j: int| 0 <= j < nodes.len() && j != index implies #[trigger] settle(nodes, index, bound)[j]
            == nodes[j] by {
            assert(next[j] == nodes[j]);
        }
    }
}

/// Settling HEAD cards from position `i` on moves cards only down, leaves
/// the cards before `i` alone, and leaves card `i` where settling it put it.
proof fn lemma_settle_heads_moves_down(nodes: Seq<CanvasNodeView>, i: int)
    requires
        0 <= i,
    ensures
        settle_heads_from(nodes, i).len() == nodes.len(),
        forall|j: int| 0 <= j < nodes.len() ==> moved_down(nodes[j], #[trigger] settle_heads_from(nodes, i)[j]),
        forall|j: int| 0 <= j < nodes.len() && j < i ==> #[trigger] settle_heads_from(nodes, i)[j] == nodes[j],
        i < nodes.len() && nodes[i].kind == CanvasNodeKind::Head ==> settle_heads_from(nodes, i)[i] == settle(
            nodes,
            i,
            max_clearance(nodes),
        )[i],
    decreases nodes.len() - i,
{
    if i < nodes.len() {
        let head = nodes[i].kind == CanvasNodeKind::Head;
        let next = if head {
            settle(nodes, i, max_clearance(nodes))
        } else {
            nodes
        };
        if head {
            lemma_settle_moves_down(nodes, i, max_clearance(nodes));
        }
        lemma_settle_heads_moves_down(next, i + 1);
        assert(settle_heads_from(nodes, i) == settle_heads_from(next, i + 1));
        assert forall|j: int| 0 <= j < nodes.len() implies moved_down(
            nodes[j],
            #[trigger] settle_heads_from(nodes, i)[j],
        ) by {
            assert(moved_down(nodes[j], next[j]));
            assert(moved_down(next[j], settle_heads_from(next, i + 1)[j]));
        }
    }
}

/// The first card in the way of card `i`.
fn find_blocker(nodes: &Vec<CanvasNode>, i: usize) -> (f: usize)
    requires
        i < nodes@.len(),
    ensures
        f as int == first_blocker(node_views(nodes@), i as int, 0),
        f <= nodes@.len(),
{
    let ghost v = node_views(nodes@);
    let mut j: usize = 0;
    while j < nodes.len()
        invariant
            j <= nodes.len(),
            i < nodes@.len(),
            v == node_views(nodes@),
            v.len() == nodes@.len(),
            first_blocker(v, i as int, 0) == first_blocker(v, i as int, j as int),
        decreases nodes.len() - j,
    {
        let a = &nodes[i];
        let b = &nodes[j];
        assert(v[i as int] == a@ && v[j as int] == b@);
        let (ax, ay, aw, ah) = (
            a.default_position.x as i128,
            a.default_position.y as i128,
            a.width as i128,
            a.height as i128,
        );
        let (bx, by, bw, bh) = (
            b.default_position.x as i128,
            b.default_position.y as i128,
            b.width as i128,
            b.height as i128,
        );
        let margin = CARD_MARGIN as i128;
        let unmoved_head = b.kind == CanvasNodeKind::Head && j > i;
        let hit = j != i && !unmoved_head && ax < bx + bw + margin && ax + aw + margin > bx && ay < by + bh
            + margin && ay + ah + margin > by;
        assert(hit == blocks(v, i as int, j as int));
        if hit {
            return j;
        }
        j = j + 1;
    }
    j
}

/// Moves card `i` down past the cards in its way until none is; false, and
/// the card left part way, when a move would take it past the `i64` range.
fn settle_card(nodes: &mut Vec<CanvasNode>, i: usize) -> (settled: bool)
    requires
        i < old(nodes)@.len(),
    ensures
        final(nodes)@.len() == old(nodes)@.len(),
        settled ==> node_views(final(nodes)@) == settle(
            node_views(old(nodes)@),
            i as int,
            max_clearance(node_views(old(nodes)@)),
        ),
        !settled ==> settle(node_views(old(nodes)@), i as int, max_clearance(node_views(old(nodes)@)))[i as int].y
            > i64::MAX,
{
    let ghost start = node_views(nodes@);
    let ghost bound = max_clearance(start);
    proof {
        lemma_max_clearance(start);
    }
    loop
        invariant
            i < nodes@.len(),
            nodes@.len() == start.len(),
            start == node_views(old(nodes)@),
            bound == max_clearance(start),
            forall|j: int| 0 <= j < start.len() ==> clearance(#[trigger] start[j]) <= bound,
            forall|j: int| 0 <= j < start.len() && j != i ==> #[trigger] node_views(nodes@)[j] == start[j],
            settle(start, i as int, bound) == settle(node_views(nodes@), i as int, bound),
        ensures
            nodes@.len() == start.len(),
            node_views(nodes@) == settle(start, i as int, bound),
        decreases bound - nodes@[i as int].default_position.y,
    {
        let ghost cur = node_views(nodes@);
        let f = find_blocker(nodes, i);
        if f == nodes.len() {
            assert(settle(cur, i as int, bound) == cur);
            break;
        }
        let ghost moved = CanvasNodeView { y: clearance(cur[f as int]), ..cur[i as int] };
        proof {
            lemma_first_blocker_found(cur, i as int, 0);
            assert(blocks(cur, i as int, f as int));
            assert(cur[f as int] == start[f as int]);
            assert(settle(cur, i as int, bound) == settle(cur.update(i as int, moved), i as int, bound));
            lemma_settle_moves_down(cur.update(i as int, moved), i as int, bound);
        }
        assert(cur[f as int] == nodes@[f as int]@);
        let below = nodes[f].default_position.y as i128 + nodes[f].height as i128 + CARD_GAP as i128;
        if below > i64::MAX as i128 {
            return false;
        }
        let new_y = below as i64;
        let mut node = nodes.remove(i);
        node.default_position.y = new_y;
        nodes.insert(i, node);
        proof {
            assert(node_views(nodes@) =~= cur.update(i as int, moved));
        }
    }
    true
}

proof fn lemma_first_blocker_found(nodes: Seq<CanvasNodeView>, index: int, j: int)
    requires
        0 <= j <= nodes.len(),
    ensures
        j <= first_blocker(nodes, index, j) <= nodes.len(),
        first_blocker(nodes, index, j) < nodes.len() ==> blocks(nodes, index, first_blocker(nodes, index, j)),
    decreases nodes.len() - j,
{
    if j < nodes.len() && !blocks(nodes, index, j) {
        lemma_first_blocker_found(nodes, index, j + 1);
    }
}

/// Moves every HEAD card clear of the cards before it and of all other
/// cards, in order; false when some card would be moved past the `i64`
/// range.
fn settle_heads(nodes: &mut Vec<CanvasNode>) -> (settled: bool)
    ensures
        final(nodes)@.len() == old(nodes)@.len(),
        settled ==> node_views(final(nodes)@) == settle_heads_from(node_views(old(nodes)@), 0),
        !settled ==> exists|j: int|
            0 <= j < old(nodes)@.len() && (#[trigger] settle_heads_from(node_views(old(nodes)@), 0)[j]).y > i64::MAX,
{
    let ghost start = node_views(nodes@);
    let mut i: usize = 0;
    while i < nodes.len()
        invariant
            i <= nodes@.len(),
            nodes@.len() == start.len(),
            start == node_views(old(nodes)@),
            settle_heads_from(start, 0) == settle_heads_from(node_views(nodes@), i as int),
        decreases nodes@.len() - i,
    {
        let ghost cur = node_views(nodes@);
        assert(cur[i as int] == nodes@[i as int]@);
        if nodes[i].kind == CanvasNodeKind::Head {
            if !settle_card(nodes, i) {
                proof {
                    lemma_settle_heads_moves_down(cur, i as int);
                    assert(settle_heads_from(start, 0)[i as int].y > i64::MAX);
                }
                return false;
            }
        }
        i = i + 1;
    }
    true
}


/// Whether lane `k` holds a commit card for `c`.
fn lane_lists(lane: &CommitLane, c: &String) -> (found: bool)
    ensures
        found == lane_has_commit(lane@, c@),
{
    let mut j: usize = 0;
    while j < lane.entries.len()
        invariant
            j <= lane.entries.len(),
            forall|t: int| 0 <= t < j ==> (#[trigger] lane@.entries[t]).full_hash != c@,
        decreases lane.entries.len() - j,
    {
        assert(lane@.entries[j as int] == lane.entries@[j as int]@);
        if lane.entries[j].full_hash.eq(c) {
            return true;
        }
        j = j + 1;
    }
    false
}

/// Whether the graph holds a commit card with identity (`lane_id`, `c`).
fn graph_lists(graph: &CommitGraph, lane_id: &String, c: &String) -> (found: bool)
    ensures
        found == graph_has_commit(graph@, (lane_id@, c@)),
{
    let ghost g = graph@;
    let mut k: usize = 0;
    while k < graph.lanes.len()
        invariant
            k <= graph.lanes.len(),
            g == graph@,
            forall|t: int| 0 <= t < k ==> !((#[trigger] g.lanes[t]).id == lane_id@ && lane_has_commit(g.lanes[t], c@)),
        decreases graph.lanes.len() - k,
    {
        assert(g.lanes[k as int] == graph.lanes@[k as int]@);
        if graph.lanes[k].id.eq(lane_id) && lane_lists(&graph.lanes[k], c) {
            return true;
        }
        k = k + 1;
    }
    false
}

/// The parent connections of every lane, appended to `edges`.
fn add_parent_edges(graph: &CommitGraph, edges: &mut Vec<CanvasEdge>)
    ensures
        edge_views(final(edges)@) == edge_views(old(edges)@) + parent_edges(graph@, graph@.lanes.len() as int),
{
    let ghost g = graph@;
    let ghost start = edge_views(edges@);
    let mut k: usize = 0;
    assert(edge_views(edges@) =~= start + parent_edges(g, 0));
    while k < graph.lanes.len()
        invariant
            k <= graph.lanes.len(),
            g == graph@,
            edge_views(edges@) == start + parent_edges(g, k as int),
        decreases graph.lanes.len() - k,
    {
        let lane = &graph.lanes[k];
        assert(g.lanes[k as int] == lane@);
        let ghost base = edge_views(edges@);
        let mut i: usize = 0;
        assert(edge_views(edges@) =~= base + lane_parent_edges(g, k as int, 0));
        while i < lane.entries.len()
            invariant
                k < g.lanes.len(),
                i <= lane.entries.len(),
                g == graph@,
                g.lanes[k as int] == lane@,
                edge_views(edges@) == base + lane_parent_edges(g, k as int, i as int),
            decreases lane.entries.len() - i,
        {
            let entry = &lane.entries[i];
            assert(g.lanes[k as int].entries[i as int] == entry@);
            let ghost before = edge_views(edges@);
            let mut n: usize = 0;
            assert(edge_views(edges@) =~= before + entry_parent_edges(g, k as int, i as int, 0));
            while n < entry.parent_hashes.len()
                invariant
                    k < g.lanes.len(),
                    i < lane.entries.len(),
                    n <= entry.parent_hashes.len(),
                    g == graph@,
                    g.lanes[k as int] == lane@,
                    g.lanes[k as int].entries[i as int] == entry@,
                    edge_views(edges@) == before + entry_parent_edges(g, k as int, i as int, n as int),
                decreases entry.parent_hashes.len() - n,
            {
                let parent = &entry.parent_hashes[n];
                assert(entry@.parent_hashes[n as int] == parent@);
                let ghost prior = edge_views(edges@);
                if graph_lists(graph, &lane.id, parent) {
                    edges.push(CanvasEdge {
                        from: CanvasNodeId { lane_id: lane.id.clone(), commit_id: entry.full_hash.clone() },
                        to: CanvasNodeId { lane_id: lane.id.clone(), commit_id: parent.clone() },
                        kind: CanvasEdgeKind::Parent,
                    });
                }
                let ghost piece = if graph_has_commit(g, (lane@.id, parent@)) {
                    seq![
                        CanvasEdgeView {
                            from: (lane@.id, entry@.full_hash),
                            to: (lane@.id, parent@),
                            kind: CanvasEdgeKind::Parent,
                        },
                    ]
                } else {
                    Seq::empty()
                };
                assert(edge_views(edges@) =~= prior + piece);
                assert(entry_parent_edges(g, k as int, i as int, n + 1) == entry_parent_edges(g, k as int, i as int, n as int) + piece);
                n = n + 1;
                assert(edge_views(edges@) =~= before + entry_parent_edges(g, k as int, i as int, n as int));
            }
            i = i + 1;
            assert(edge_views(edges@) =~= base + lane_parent_edges(g, k as int, i as int));
        }
        k = k + 1;
        assert(edge_views(edges@) =~= start + parent_edges(g, k as int));
    }
}


fn same_id(a: &CanvasNodeId, b: &CanvasNodeId) -> (eq: bool)
    ensures
        eq == (a@ == b@),
{
    a.lane_id.eq(&b.lane_id) && a.commit_id.eq(&b.commit_id)
}

/// Whether a card with identity `id` exists among the graph's commits and
/// the placeholders added so far.
fn card_known(graph: &CommitGraph, extra: &Vec<CanvasNode>, id: &CanvasNodeId) -> (known: bool)
    ensures
        known == known_card(graph@, node_views(extra@), id@),
{
    if graph_lists(graph, &id.lane_id, &id.commit_id) {
        return true;
    }
    let ghost v = node_views(extra@);
    let mut j: usize = 0;
    while j < extra.len()
        invariant
            j <= extra.len(),
            v == node_views(extra@),
            v.len() == extra@.len(),
            forall|t: int| 0 <= t < j ==> (#[trigger] v[t]).id != id@,
        decreases extra.len() - j,
    {
        assert(v[j as int] == extra@[j as int]@);
        if same_id(&extra[j].id, id) {
            return true;
        }
        j = j + 1;
    }
    false
}

/// The top edge of the last card with identity `id`.
fn card_row(nodes: &Vec<CanvasNode>, id: &CanvasNodeId) -> (y: i64)
    ensures
        y as int == row_of(node_views(nodes@), id@),
{
    let ghost v = node_views(nodes@);
    let mut j: usize = nodes.len();
    assert(v.take(v.len() as int) == v);
    while j > 0
        invariant
            j <= nodes.len(),
            v == node_views(nodes@),
            v.len() == nodes@.len(),
            row_of(v, id@) == row_of(v.take(j as int), id@),
        decreases j,
    {
        assert(v.take(j as int).last() == nodes@[j - 1]@);
        assert(v.take(j as int).drop_last() == v.take(j - 1));
        if same_id(&nodes[j - 1].id, id) {
            return nodes[j - 1].default_position.y;
        }
        j = j - 1;
    }
    FIRST_NODE_TOP
}

/// The position of the lane with id `id`.
fn find_lane(graph: &CommitGraph, id: &String) -> (k: usize)
    ensures
        k as int == lane_index(graph@.lanes, id@, 0),
{
    let ghost g = graph@;
    let mut k: usize = 0;
    while k < graph.lanes.len()
        invariant
            k <= graph.lanes.len(),
            g == graph@,
            lane_index(g.lanes, id@, 0) == lane_index(g.lanes, id@, k as int),
        decreases graph.lanes.len() - k,
    {
        assert(g.lanes[k as int] == graph.lanes@[k as int]@);
        if graph.lanes[k].id.eq(id) {
            return k;
        }
        k = k + 1;
    }
    k
}

proof fn lemma_last_lane_index(lanes: Seq<CommitLaneView>, id: Seq<char>, k: int)
    requires
        0 <= k <= lanes.len(),
    ensures
        ({
            let r = last_lane_index(lanes, id, k);
            ||| r == lanes.len() && forall|j: int| 0 <= j < k ==> (#[trigger] lanes[j]).id != id
            ||| 0 <= r < k && lanes[r].id == id && forall|j: int| r < j < k ==> (#[trigger] lanes[j]).id != id
        }),
    decreases k,
{
    if k > 0 && lanes[k - 1].id != id {
        lemma_last_lane_index(lanes, id, k - 1);
    }
}

/// The lane a lane is looked up by comes at or after it and has its id.
proof fn lemma_keyed_lane(lanes: Seq<CommitLaneView>, k: int)
    requires
        0 <= k < lanes.len(),
    ensures
        k <= keyed_lane(lanes, k) < lanes.len(),
        lanes[keyed_lane(lanes, k)].id == lanes[k].id,
{
    lemma_last_lane_index(lanes, lanes[k].id, lanes.len() as int);
}

/// With distinct lane ids, every lane is looked up as itself, and every lane
/// has a column for each of its entries.
pub proof fn distinct_lanes_are_their_own_keys(g: CommitGraphView)
    requires
        distinct_lane_ids(g),
    ensures
        forall|k: int| 0 <= k < g.lanes.len() ==> #[trigger] keyed_lane(g.lanes, k) == k,
        lanes_have_columns(g),
{
    assert forall|k: int| 0 <= k < g.lanes.len() implies #[trigger] keyed_lane(g.lanes, k) == k by {
        lemma_keyed_lane(g.lanes, k);
        let r = keyed_lane(g.lanes, k);
        if r != k {
            assert(g.lanes[k].id != g.lanes[r].id);
        }
    }
}

/// The position of the last lane with id `id`, or the number of lanes.
fn find_last_lane(graph: &CommitGraph, id: &String) -> (k: usize)
    ensures
        k as int == last_lane_index(graph@.lanes, id@, graph@.lanes.len() as int),
{
    let ghost g = graph@;
    let mut j: usize = graph.lanes.len();
    while j > 0
        invariant
            j <= graph.lanes.len(),
            g == graph@,
            last_lane_index(g.lanes, id@, g.lanes.len() as int) == last_lane_index(g.lanes, id@, j as int),
        decreases j,
    {
        assert(g.lanes[j - 1] == graph.lanes@[j - 1]@);
        if graph.lanes[j - 1].id.eq(id) {
            return j - 1;
        }
        j = j - 1;
    }
    graph.lanes.len()
}

/// For every lane, the lane it is looked up by.
fn keyed_lanes(graph: &CommitGraph) -> (keyed: Vec<usize>)
    ensures
        keyed@.len() == graph@.lanes.len(),
        forall|k: int| 0 <= k < keyed@.len() ==> (#[trigger] keyed@[k]) as int == keyed_lane(graph@.lanes, k),
        forall|k: int| 0 <= k < keyed@.len() ==> k <= #[trigger] keyed@[k] < graph@.lanes.len(),
{
    let ghost g = graph@;
    let mut keyed: Vec<usize> = Vec::new();
    let mut k: usize = 0;
    while k < graph.lanes.len()
        invariant
            k <= graph.lanes.len(),
            g == graph@,
            keyed@.len() == k,
            forall|j: int| 0 <= j < k ==> (#[trigger] keyed@[j]) as int == keyed_lane(g.lanes, j),
            forall|j: int| 0 <= j < k ==> j <= #[trigger] keyed@[j] < g.lanes.len(),
        decreases graph.lanes.len() - k,
    {
        assert(g.lanes[k as int].id == graph.lanes@[k as int].id@);
        let found = find_last_lane(graph, &graph.lanes[k].id);
        proof {
            lemma_keyed_lane(g.lanes, k as int);
        }
        keyed.push(found);
        k = k + 1;
    }
    keyed
}

proof fn lemma_lane_index_bounds(lanes: Seq<CommitLaneView>, id: Seq<char>, k: int)
    requires
        0 <= k <= lanes.len(),
    ensures
        k <= lane_index(lanes, id, k) <= lanes.len(),
    decreases lanes.len() - k,
{
    if k < lanes.len() {
        lemma_lane_index_bounds(lanes, id, k + 1);
    }
}

/// The placeholders and submodule connections of every link.
fn link_submodules(graph: &CommitGraph, xs: &Vec<i64>, settled: &Vec<CanvasNode>) -> (result: (
    Vec<CanvasNode>,
    Vec<CanvasEdge>,
))
    requires
        xs@.len() == graph@.lanes.len(),
        forall|k: int| 0 <= k < graph@.lanes.len() ==> (#[trigger] xs@[k]) as int == lane_x(graph@.lanes, k),
    ensures
        (node_views(result.0@), edge_views(result.1@)) == links_upto(
            graph@,
            node_views(settled@),
            graph@.submodule_links.len() as int,
        ),
{
    let ghost g = graph@;
    let ghost sv = node_views(settled@);
    let mut extra: Vec<CanvasNode> = Vec::new();
    let mut edges: Vec<CanvasEdge> = Vec::new();
    let mut n: usize = 0;
    assert(node_views(extra@) =~= links_upto(g, sv, 0).0);
    assert(edge_views(edges@) =~= links_upto(g, sv, 0).1);
    while n < graph.submodule_links.len()
        invariant
            n <= graph.submodule_links.len(),
            g == graph@,
            sv == node_views(settled@),
            xs@.len() == g.lanes.len(),
            forall|k: int| 0 <= k < g.lanes.len() ==> (#[trigger] xs@[k]) as int == lane_x(g.lanes, k),
            (node_views(extra@), edge_views(edges@)) == links_upto(g, sv, n as int),
        decreases graph.submodule_links.len() - n,
    {
        let link = &graph.submodule_links[n];
        assert(g.submodule_links[n as int] == link_view(*link));
        let ghost state = (node_views(extra@), edge_views(edges@));
        let from = CanvasNodeId { lane_id: text_of("main"), commit_id: link.main_commit.clone() };
        let to = CanvasNodeId { lane_id: link.submodule_lane.clone(), commit_id: link.submodule_commit.clone() };
        let ghost edge = CanvasEdgeView { from: from@, to: to@, kind: CanvasEdgeKind::Submodule };
        if card_known(graph, &extra, &from) {
            if card_known(graph, &extra, &to) {
                edges.push(CanvasEdge { from, to, kind: CanvasEdgeKind::Submodule });
                assert(edge_views(edges@) =~= state.1.push(edge));
            } else {
                let lane = find_last_lane(graph, &link.submodule_lane);
                proof {
                    lemma_last_lane_index(g.lanes, link.submodule_lane@, g.lanes.len() as int);
                }
                if lane < graph.lanes.len() {
                    let y = card_row(settled, &from);
                    let no_labels: Vec<String> = Vec::new();
                    assert(texts(no_labels@) =~= Seq::<Seq<char>>::empty());
                    extra.push(CanvasNode {
                        id: to.copy(),
                        entry: None,
                        head_labels: no_labels,
                        kind: CanvasNodeKind::Placeholder,
                        width: NODE_WIDTH,
                        height: NODE_HEIGHT,
                        default_position: CanvasPoint { x: xs[lane], y },
                    });
                    edges.push(CanvasEdge { from, to, kind: CanvasEdgeKind::Submodule });
                    assert(node_views(extra@) =~= state.0.push(placeholder(to@, lane_x(g.lanes, lane as int), row_of(sv, from@))));
                    assert(edge_views(edges@) =~= state.1.push(edge));
                }
            }
        }
        n = n + 1;
        assert((node_views(extra@), edge_views(edges@)) == links_upto(g, sv, n as int));
    }
    (extra, edges)
}


/// The canvas of a graph whose lanes have a column for each entry; `None`
/// when some lane position or card position or size on it is beyond the
/// `i64` range.
fn checked_layout(graph: &CommitGraph) -> (layout: Option<CommitCanvasLayout>)
    requires
        lanes_have_columns(graph@),
    ensures
        match layout {
            Some(l) => l@ == canvas_of(graph@),
            None => !canvas_fits(canvas_of(graph@)),
        },
{
    let ghost g = graph@;
    let columns = lane_columns(graph);
    let keyed = keyed_lanes(graph);
    let (lanes, xs) = match layout_lanes(graph, &columns, &keyed) {
        Some(r) => r,
        None => {
            proof {
                let k = choose|k: int| 0 <= k < g.lanes.len() && #[trigger] lane_x(g.lanes, k) > i64::MAX;
                assert(!fits_i64(canvas_of(g).lanes[k].x));
            }
            return None;
        },
    };
    let (mut nodes, mut edges) = match place_nodes(graph, &columns, &keyed, &xs) {
        Some(r) => r,
        None => {
            proof {
                let (k, i) = choose|k: int, i: int| #[trigger] placement_overflows(g, k, i);
                lemma_placement_overflow_unfit(g, k, i);
            }
            return None;
        },
    };
    if !settle_heads(&mut nodes) {
        proof {
            let placed = placed_nodes(g, g.lanes.len() as int);
            let j = choose|j: int| 0 <= j < placed.len() && (#[trigger] settle_heads_from(placed, 0)[j]).y > i64::MAX;
            lemma_settled_overflow_unfit(g, j);
        }
        return None;
    }
    add_parent_edges(graph, &mut edges);
    let (mut extra, mut link_edges) = link_submodules(graph, &xs, &nodes);
    let ghost settled = node_views(nodes@);
    let ghost links = (node_views(extra@), edge_views(link_edges@));
    let ghost before_edges = edge_views(edges@);
    nodes.append(&mut extra);
    edges.append(&mut link_edges);
    let main_id = text_of("main");
    let main = find_lane(graph, &main_id);
    proof {
        lemma_lane_index_bounds(g.lanes, "main"@, 0);
    }
    let list = if main < graph.lanes.len() {
        assert(g.lanes[main as int] == graph.lanes@[main as int]@);
        copy_entries(&graph.lanes[main].entries)
    } else {
        Vec::new()
    };
    let layout = CommitCanvasLayout {
        repository_path: graph.repository_path.clone(),
        lanes,
        nodes,
        edges,
        list: LogListLayout { entries: list },
    };
    assert(layout@.nodes =~= settled + links.0);
    assert(layout@.edges =~= before_edges + links.1);
    assert(layout@.lanes =~= canvas_of(g).lanes);
    assert(layout@.list =~= main_entries(g));
    Some(layout)
}

/// Lays out the commit graph of a repository and its submodules on the
/// canvas, for a graph whose lanes have a column for each entry (as lanes
/// with distinct ids always do) and whose canvas has every coordinate within
/// the `i64` range.
pub fn build_layout(graph: &CommitGraph) -> (layout: CommitCanvasLayout)
    requires
        lanes_have_columns(graph@),
        canvas_fits(canvas_of(graph@)),
    ensures
        layout@ == canvas_of(graph@),
{
    checked_layout(graph).unwrap()
}

impl CanvasNode {
    /// The abbreviated id shown on the card: the entry's own, or the first
    /// seven characters of the commit id for a card without an entry.
    pub fn short_hash(&self) -> (hash: String)
        ensures
            hash@ == match self.entry {
                Some(e) => e.hash@,
                None => take_chars(self.id.commit_id@, 7),
            },
    {
        match &self.entry {
            Some(e) => e.hash.clone(),
            None => abbreviate(self.id.commit_id.as_str()),
        }
    }

    pub fn is_placeholder(&self) -> (placeholder: bool)
        ensures
            placeholder == (self.kind == CanvasNodeKind::Placeholder),
    {
        self.kind == CanvasNodeKind::Placeholder
    }

    pub fn is_head(&self) -> (head: bool)
        ensures
            head == (self.kind == CanvasNodeKind::Head),
    {
        self.kind == CanvasNodeKind::Head
    }
}

/// The canvas of a graph, when it can be laid out: each lane has a column
/// for each of its entries and every lane position and card position and
/// size on its canvas is within the `i64` range; `None` otherwise.
pub fn layout_if_fits(graph: &CommitGraph) -> (layout: Option<CommitCanvasLayout>)
    ensures
        match layout {
            Some(l) => lanes_have_columns(graph@) && canvas_fits(canvas_of(graph@)) && l@ == canvas_of(graph@),
            None => !(lanes_have_columns(graph@) && canvas_fits(canvas_of(graph@))),
        },
{
    let ghost g = graph@;
    let keyed = keyed_lanes(graph);
    let mut k: usize = 0;
    while k < graph.lanes.len()
        invariant
            k <= graph.lanes.len(),
            g == graph@,
            keyed@.len() == g.lanes.len(),
            forall|j: int| 0 <= j < keyed@.len() ==> (#[trigger] keyed@[j]) as int == keyed_lane(g.lanes, j),
            forall|j: int| 0 <= j < keyed@.len() ==> j <= #[trigger] keyed@[j] < g.lanes.len(),
            forall|j: int|
                0 <= j < k ==> g.lanes[j].entries.len() <= g.lanes[#[trigger] keyed_lane(g.lanes, j)].entries.len(),
        decreases graph.lanes.len() - k,
    {
        let source = keyed[k];
        assert(g.lanes[k as int].entries.len() == graph.lanes@[k as int].entries@.len());
        assert(g.lanes[source as int].entries.len() == graph.lanes@[source as int].entries@.len());
        if graph.lanes[k].entries.len() > graph.lanes[source].entries.len() {
            assert(!lanes_have_columns(g));
            return None;
        }
        k = k + 1;
    }
    let layout = checked_layout(graph);
    proof {
        if layout is Some {
            lemma_layout_fits(layout.unwrap());
        }
    }
    layout
}

/// The canvas of a laid-out layout has every coordinate within the `i64`
/// range, its coordinate type.
proof fn lemma_layout_fits(l: CommitCanvasLayout)
    ensures
        canvas_fits(l@),
{
    assert forall|k: int| 0 <= k < l@.lanes.len() implies fits_i64(#[trigger] l@.lanes[k].x) by {
        assert(l@.lanes[k] == l.lanes@[k]@);
    }
    assert forall|j: int| 0 <= j < l@.nodes.len() implies card_fits(#[trigger] l@.nodes[j]) by {
        assert(l@.nodes[j] == l.nodes@[j]@);
    }
}

/// The canvas begins with the settled cards.
proof fn lemma_canvas_holds_settled(g: CommitGraphView, j: int)
    requires
        0 <= j < settled_nodes(g).len(),
    ensures
        canvas_of(g).nodes[j] == settled_nodes(g)[j],
{
}

/// A card moved past the `i64` range leaves the canvas beyond it.
proof fn lemma_settled_overflow_unfit(g: CommitGraphView, j: int)
    requires
        0 <= j < placed_nodes(g, g.lanes.len() as int).len(),
        settle_heads_from(placed_nodes(g, g.lanes.len() as int), 0)[j].y > i64::MAX,
    ensures
        !canvas_fits(canvas_of(g)),
{
    lemma_settle_heads_moves_down(placed_nodes(g, g.lanes.len() as int), 0);
    lemma_canvas_holds_settled(g, j);
    assert(!card_fits(canvas_of(g).nodes[j]));
}

/// A card placed beyond the `i64` range stays beyond it on the canvas:
/// settling keeps its position across and its size, and only moves it down.
proof fn lemma_placement_overflow_unfit(g: CommitGraphView, k: int, i: int)
    requires
        placement_overflows(g, k, i),
    ensures
        !canvas_fits(canvas_of(g)),
{
    let placed = placed_nodes(g, g.lanes.len() as int);
    lemma_placed_holds(g, g.lanes.len() as int);
    lemma_settle_heads_moves_down(placed, 0);
    let c = commit_node(g, k, i);
    if c.x > i64::MAX || c.y > i64::MAX {
        assert(placed.contains(c));
        let j = choose|j: int| 0 <= j < placed.len() && placed[j] == c;
        assert(moved_down(placed[j], settle_heads_from(placed, 0)[j]));
        lemma_canvas_holds_settled(g, j);
        assert(!card_fits(canvas_of(g).nodes[j]));
    } else {
        let h = head_node(g, k, i);
        assert(placed.contains(h));
        let j = choose|j: int| 0 <= j < placed.len() && placed[j] == h;
        assert(moved_down(placed[j], settle_heads_from(placed, 0)[j]));
        lemma_canvas_holds_settled(g, j);
        assert(!card_fits(canvas_of(g).nodes[j]));
    }
}

proof fn lemma_contains_concat(a: Seq<CanvasNodeView>, b: Seq<CanvasNodeView>, n: CanvasNodeView)
    ensures
        a.contains(n) ==> (a + b).contains(n),
        b.contains(n) ==> (a + b).contains(n),
{
    if a.contains(n) {
        let j = choose|j: int| 0 <= j < a.len() && a[j] == n;
        assert((a + b)[j] == n);
    }
    if b.contains(n) {
        let j = choose|j: int| 0 <= j < b.len() && b[j] == n;
        assert((a + b)[a.len() + j] == n);
    }
}

/// The cards of the first `n` entries of lane `k` include each entry's
/// commit card, and its HEAD card when it has branch names.
proof fn lemma_lane_holds(g: CommitGraphView, k: int, n: int)
    requires
        0 <= n <= g.lanes[k].entries.len(),
    ensures
        forall|i: int|
            0 <= i < n ==> lane_nodes(g, k, n).contains(#[trigger] commit_node(g, k, i)) && (head_labels_at(
                g,
                k,
                i,
            ).len() > 0 ==> lane_nodes(g, k, n).contains(head_node(g, k, i))),
    decreases n,
{
    if n > 0 {
        lemma_lane_holds(g, k, n - 1);
        let before = lane_nodes(g, k, n - 1);
        let last = entry_nodes(g, k, n - 1);
        assert forall|i: int| 0 <= i < n implies lane_nodes(g, k, n).contains(#[trigger] commit_node(g, k, i))
            && (head_labels_at(g, k, i).len() > 0 ==> lane_nodes(g, k, n).contains(head_node(g, k, i))) by {
            lemma_contains_concat(before, last, commit_node(g, k, i));
            lemma_contains_concat(before, last, head_node(g, k, i));
            if i == n - 1 {
                if head_labels_at(g, k, i).len() > 0 {
                    assert(last[0] == head_node(g, k, i));
                    assert(last[1] == commit_node(g, k, i));
                } else {
                    assert(last[0] == commit_node(g, k, i));
                }
            }
        }
    }
}

/// The placed cards of the first `m` lanes include every commit card of
/// those lanes, and every HEAD card.
proof fn lemma_placed_holds(g: CommitGraphView, m: int)
    requires
        0 <= m <= g.lanes.len(),
    ensures
        forall|k: int, i: int|
            0 <= k < m && 0 <= i < g.lanes[k].entries.len() ==> placed_nodes(g, m).contains(
                #[trigger] commit_node(g, k, i),
            ) && (head_labels_at(g, k, i).len() > 0 ==> placed_nodes(g, m).contains(head_node(g, k, i))),
    decreases m,
{
    if m > 0 {
        lemma_placed_holds(g, m - 1);
        let before = placed_nodes(g, m - 1);
        let last = lane_nodes(g, m - 1, g.lanes[m - 1].entries.len() as int);
        lemma_lane_holds(g, m - 1, g.lanes[m - 1].entries.len() as int);
        assert forall|k: int, i: int| 0 <= k < m && 0 <= i < g.lanes[k].entries.len() implies placed_nodes(
            g,
            m,
        ).contains(#[trigger] commit_node(g, k, i)) && (head_labels_at(g, k, i).len() > 0 ==> placed_nodes(
            g,
            m,
        ).contains(head_node(g, k, i))) by {
            lemma_contains_concat(before, last, commit_node(g, k, i));
            lemma_contains_concat(before, last, head_node(g, k, i));
        }
    }
}

// ---------------------------------------------------------------------------
// HEAD cards never overlap another card.

proof fn lemma_max_clearance(nodes: Seq<CanvasNodeView>)
    ensures
        forall|j: int| 0 <= j < nodes.len() ==> clearance(#[trigger] nodes[j]) <= max_clearance(nodes),
    decreases nodes.len(),
{
    if nodes.len() > 0 {
        lemma_max_clearance(nodes.drop_last());
        assert forall|j: int| 0 <= j < nodes.len() implies clearance(#[trigger] nodes[j]) <= max_clearance(nodes) by {
            if j < nodes.len() - 1 {
                assert(nodes[j] == nodes.drop_last()[j]);
            }
        }
    }
}

proof fn lemma_first_blocker(nodes: Seq<CanvasNodeView>, index: int, j: int)
    requires
        0 <= j,
    ensures
        ({
            let f = first_blocker(nodes, index, j);
            ||| f == nodes.len() && forall|t: int| j <= t < nodes.len() ==> !blocks(nodes, index, t)
            ||| j <= f < nodes.len() && blocks(nodes, index, f)
        }),
    decreases nodes.len() - j,
{
    if j < nodes.len() && !blocks(nodes, index, j) {
        lemma_first_blocker(nodes, index, j + 1);
    }
}

/// Overlapping is symmetric.
pub proof fn overlap_is_symmetric(a: CanvasNodeView, b: CanvasNodeView)
    ensures
        overlaps(a, b) == overlaps(b, a),
{
}

proof fn lemma_settle_clears(nodes: Seq<CanvasNodeView>, index: int, bound: int)
    requires
        0 <= index < nodes.len(),
        forall|j: int| 0 <= j < nodes.len() && j != index ==> clearance(#[trigger] nodes[j]) <= bound,
    ensures
        settle(nodes, index, bound).len() == nodes.len(),
        forall|j: int| 0 <= j < nodes.len() && j != index ==> #[trigger] settle(nodes, index, bound)[j] == nodes[j],
        settle(nodes, index, bound)[index].kind == nodes[index].kind,
        forall|j: int| 0 <= j < nodes.len() ==> !blocks(settle(nodes, index, bound), index, j),
    decreases bound - nodes[index].y,
{
    let f = first_blocker(nodes, index, 0);
    lemma_first_blocker(nodes, index, 0);
    if 0 <= f < nodes.len() && nodes[index].y < clearance(nodes[f]) <= bound {
        let next = nodes.update(index, CanvasNodeView { y: clearance(nodes[f]), ..nodes[index] });
        lemma_settle_clears(next, index, bound);
    } else if f < nodes.len() {
        assert(blocks(nodes, index, f));
        assert(clearance(nodes[f]) <= bound);
    }
}

/// After positions before `i` are processed, every HEAD card among them is
/// clear of every other card, except HEAD cards not yet processed.
pub open spec fn heads_clear(nodes: Seq<CanvasNodeView>, i: int) -> bool {
    forall|a: int, b: int|
        0 <= a < i && 0 <= b < nodes.len() && a != b && (#[trigger] nodes[a]).kind == CanvasNodeKind::Head && (b < i
            || (#[trigger] nodes[b]).kind != CanvasNodeKind::Head) ==> !overlaps(nodes[a], nodes[b])
}

proof fn lemma_settle_heads(nodes: Seq<CanvasNodeView>, i: int)
    requires
        0 <= i <= nodes.len(),
        heads_clear(nodes, i),
    ensures
        settle_heads_from(nodes, i).len() == nodes.len(),
        heads_clear(settle_heads_from(nodes, i), nodes.len() as int),
    decreases nodes.len() - i,
{
    if i < nodes.len() {
        if nodes[i].kind == CanvasNodeKind::Head {
            let bound = max_clearance(nodes);
            lemma_max_clearance(nodes);
            lemma_settle_clears(nodes, i, bound);
            let r = settle(nodes, i, bound);
            assert forall|a: int, b: int|
                0 <= a < i + 1 && 0 <= b < r.len() && a != b && (#[trigger] r[a]).kind == CanvasNodeKind::Head
                    && (b < i + 1 || (#[trigger] r[b]).kind != CanvasNodeKind::Head) implies !overlaps(r[a], r[b]) by {
                if a == i {
                    assert(!blocks(r, i, b));
                } else if b == i {
                    assert(!blocks(r, i, a));
                    overlap_is_symmetric(r[a], r[b]);
                } else {
                    assert(r[a] == nodes[a]);
                    assert(r[b] == nodes[b]);
                }
            }
            lemma_settle_heads(r, i + 1);
        } else {
            assert forall|a: int, b: int|
                0 <= a < i + 1 && 0 <= b < nodes.len() && a != b && (#[trigger] nodes[a]).kind == CanvasNodeKind::Head
                    && (b < i + 1 || (#[trigger] nodes[b]).kind != CanvasNodeKind::Head) implies !overlaps(
                nodes[a],
                nodes[b],
            ) by {
                if b == i {
                    assert(nodes[b].kind != CanvasNodeKind::Head);
                }
            }
            lemma_settle_heads(nodes, i + 1);
        }
    }
}

/// On the canvas, no HEAD card overlaps another commit or HEAD card of the
/// graph's lanes: each was moved clear of them.
pub proof fn head_cards_do_not_overlap(g: CommitGraphView)
    ensures
        forall|a: int, b: int|
            0 <= a < settled_nodes(g).len() && 0 <= b < settled_nodes(g).len() && a != b
                && (#[trigger] settled_nodes(g)[a]).kind == CanvasNodeKind::Head ==> !overlaps(
                settled_nodes(g)[a],
                #[trigger] settled_nodes(g)[b],
            ),
        canvas_of(g).nodes.subrange(0, settled_nodes(g).len() as int) == settled_nodes(g),
{
    let placed = placed_nodes(g, g.lanes.len() as int);
    lemma_settle_heads(placed, 0);
    assert(canvas_of(g).nodes.subrange(0, settled_nodes(g).len() as int) =~= settled_nodes(g));
}

/// The canvas has one lane header per lane of the graph, with the lane's
/// id and name, in order: HEAD cards get no lane of their own.
pub proof fn lanes_are_the_graph_lanes(g: CommitGraphView)
    ensures
        canvas_of(g).lanes.len() == g.lanes.len(),
        forall|k: int|
            0 <= k < g.lanes.len() ==> (#[trigger] canvas_of(g).lanes[k]).id == g.lanes[k].id && canvas_of(g).lanes[k].name
                == g.lanes[k].name,
{
}

/// A HEAD card is placed beside its commit: left of it by the card width
/// and gap, on the same row, before it is moved clear of other cards.
pub proof fn head_card_beside_its_commit(g: CommitGraphView, k: int, i: int)
    ensures
        head_node(g, k, i).x + NODE_WIDTH + HEAD_GAP == commit_node(g, k, i).x,
        head_node(g, k, i).y == commit_node(g, k, i).y,
        head_node(g, k, i).id == head_id(g.lanes[k].entries[i].full_hash),
{
}

// ---------------------------------------------------------------------------
// Every connection joins two cards on the canvas.

/// Some card has this identity.
pub open spec fn has_card(nodes: Seq<CanvasNodeView>, id: (Seq<char>, Seq<char>)) -> bool {
    exists|j: int| 0 <= j < nodes.len() && (#[trigger] nodes[j]).id == id
}

/// Both ends of every connection are cards.
pub open spec fn edges_join(nodes: Seq<CanvasNodeView>, edges: Seq<CanvasEdgeView>) -> bool {
    forall|t: int| 0 <= t < edges.len() ==> has_card(nodes, (#[trigger] edges[t]).from) && has_card(nodes, edges[t].to)
}

proof fn lemma_has_card_concat(a: Seq<CanvasNodeView>, b: Seq<CanvasNodeView>, id: (Seq<char>, Seq<char>))
    ensures
        has_card(a, id) ==> has_card(a + b, id),
        has_card(b, id) ==> has_card(a + b, id),
{
    if has_card(a, id) {
        let j = choose|j: int| 0 <= j < a.len() && (#[trigger] a[j]).id == id;
        assert((a + b)[j] == a[j]);
    }
    if has_card(b, id) {
        let j = choose|j: int| 0 <= j < b.len() && (#[trigger] b[j]).id == id;
        assert((a + b)[a.len() + j] == b[j]);
    }
}

proof fn lemma_edges_join_concat(nodes: Seq<CanvasNodeView>, a: Seq<CanvasEdgeView>, b: Seq<CanvasEdgeView>)
    requires
        edges_join(nodes, a),
        edges_join(nodes, b),
    ensures
        edges_join(nodes, a + b),
{
    assert forall|t: int| 0 <= t < (a + b).len() implies has_card(nodes, (#[trigger] (a + b)[t]).from) && has_card(
        nodes,
        (a + b)[t].to,
    ) by {
        if t < a.len() {
            assert((a + b)[t] == a[t]);
        } else {
            assert((a + b)[t] == b[t - a.len()]);
        }
    }
}

proof fn lemma_edges_join_grow(nodes: Seq<CanvasNodeView>, more: Seq<CanvasNodeView>, edges: Seq<CanvasEdgeView>)
    requires
        edges_join(nodes, edges),
    ensures
        edges_join(nodes + more, edges),
{
    assert forall|t: int| 0 <= t < edges.len() implies has_card(nodes + more, (#[trigger] edges[t]).from) && has_card(
        nodes + more,
        edges[t].to,
    ) by {
        lemma_has_card_concat(nodes, more, edges[t].from);
        lemma_has_card_concat(nodes, more, edges[t].to);
    }
}

/// The cards of lane `k` include a commit card for each entry, and a HEAD
/// card for each entry with branch names.
proof fn lemma_lane_cards(g: CommitGraphView, k: int, n: int)
    requires
        0 <= n <= g.lanes[k].entries.len(),
    ensures
        forall|i: int|
            0 <= i < n ==> has_card(lane_nodes(g, k, n), (#[trigger] commit_node(g, k, i)).id) && (head_labels_at(
                g,
                k,
                i,
            ).len() > 0 ==> has_card(lane_nodes(g, k, n), head_node(g, k, i).id)),
    decreases n,
{
    if n > 0 {
        lemma_lane_cards(g, k, n - 1);
        let before = lane_nodes(g, k, n - 1);
        let last = entry_nodes(g, k, n - 1);
        assert forall|i: int| 0 <= i < n implies has_card(lane_nodes(g, k, n), (#[trigger] commit_node(g, k, i)).id)
            && (head_labels_at(g, k, i).len() > 0 ==> has_card(lane_nodes(g, k, n), head_node(g, k, i).id)) by {
            lemma_has_card_concat(before, last, commit_node(g, k, i).id);
            lemma_has_card_concat(before, last, head_node(g, k, i).id);
            if i == n - 1 {
                if head_labels_at(g, k, i).len() > 0 {
                    assert(last[0] == head_node(g, k, i));
                    assert(last[1] == commit_node(g, k, i));
                } else {
                    assert(last[0] == commit_node(g, k, i));
                }
            }
        }
    }
}

proof fn lemma_placed_cards(g: CommitGraphView, m: int)
    requires
        0 <= m <= g.lanes.len(),
    ensures
        forall|k: int, i: int|
            0 <= k < m && 0 <= i < g.lanes[k].entries.len() ==> has_card(
                placed_nodes(g, m),
                (#[trigger] commit_node(g, k, i)).id,
            ) && (head_labels_at(g, k, i).len() > 0 ==> has_card(placed_nodes(g, m), head_node(g, k, i).id)),
    decreases m,
{
    if m > 0 {
        lemma_placed_cards(g, m - 1);
        let before = placed_nodes(g, m - 1);
        let last = lane_nodes(g, m - 1, g.lanes[m - 1].entries.len() as int);
        lemma_lane_cards(g, m - 1, g.lanes[m - 1].entries.len() as int);
        assert forall|k: int, i: int| 0 <= k < m && 0 <= i < g.lanes[k].entries.len() implies has_card(
            placed_nodes(g, m),
            (#[trigger] commit_node(g, k, i)).id,
        ) && (head_labels_at(g, k, i).len() > 0 ==> has_card(placed_nodes(g, m), head_node(g, k, i).id)) by {
            lemma_has_card_concat(before, last, commit_node(g, k, i).id);
            lemma_has_card_concat(before, last, head_node(g, k, i).id);
        }
    }
}

proof fn lemma_settle_keeps_ids(nodes: Seq<CanvasNodeView>, index: int, bound: int)
    ensures
        settle(nodes, index, bound).len() == nodes.len(),
        forall|j: int| 0 <= j < nodes.len() ==> (#[trigger] settle(nodes, index, bound)[j]).id == nodes[j].id,
    decreases bound - nodes[index].y,
{
    let f = first_blocker(nodes, index, 0);
    if 0 <= index < nodes.len() && 0 <= f < nodes.len() && nodes[index].y < clearance(nodes[f]) <= bound {
        let next = nodes.update(index, CanvasNodeView { y: clearance(nodes[f]), ..nodes[index] });
        lemma_settle_keeps_ids(next, index, bound);
        assert forall|j: int| 0 <= j < nodes.len() implies (#[trigger] settle(nodes, index, bound)[j]).id
            == nodes[j].id by {
            assert(next[j].id == nodes[j].id);
        }
    }
}

proof fn lemma_settle_heads_keeps_ids(nodes: Seq<CanvasNodeView>, i: int)
    ensures
        settle_heads_from(nodes, i).len() == nodes.len(),
        forall|j: int| 0 <= j < nodes.len() ==> (#[trigger] settle_heads_from(nodes, i)[j]).id == nodes[j].id,
    decreases nodes.len() - i,
{
    if 0 <= i < nodes.len() {
        let next = if nodes[i].kind == CanvasNodeKind::Head {
            settle(nodes, i, max_clearance(nodes))
        } else {
            nodes
        };
        lemma_settle_keeps_ids(nodes, i, max_clearance(nodes));
        lemma_settle_heads_keeps_ids(next, i + 1);
        assert forall|j: int| 0 <= j < nodes.len() implies (#[trigger] settle_heads_from(nodes, i)[j]).id
            == nodes[j].id by {
            assert(next[j].id == nodes[j].id);
        }
    }
}

/// Every commit of every lane, and every HEAD card, has a card among the
/// settled cards.
proof fn lemma_settled_cards(g: CommitGraphView)
    ensures
        forall|k: int, i: int|
            0 <= k < g.lanes.len() && 0 <= i < g.lanes[k].entries.len() ==> has_card(
                settled_nodes(g),
                (#[trigger] commit_node(g, k, i)).id,
            ) && (head_labels_at(g, k, i).len() > 0 ==> has_card(settled_nodes(g), head_node(g, k, i).id)),
        forall|id: (Seq<char>, Seq<char>)| #[trigger] graph_has_commit(g, id) ==> has_card(settled_nodes(g), id),
{
    let placed = placed_nodes(g, g.lanes.len() as int);
    lemma_placed_cards(g, g.lanes.len() as int);
    lemma_settle_heads_keeps_ids(placed, 0);
    let settled = settled_nodes(g);
    assert forall|id: (Seq<char>, Seq<char>)| has_card(placed, id) implies has_card(settled, id) by {
        let j = choose|j: int| 0 <= j < placed.len() && (#[trigger] placed[j]).id == id;
        assert(settled[j].id == placed[j].id);
    }
    assert forall|id: (Seq<char>, Seq<char>)| #[trigger] graph_has_commit(g, id) implies has_card(settled, id) by {
        let k = choose|k: int| 0 <= k < g.lanes.len() && (#[trigger] g.lanes[k]).id == id.0 && lane_has_commit(
            g.lanes[k],
            id.1,
        );
        let i = choose|i: int| 0 <= i < g.lanes[k].entries.len() && (#[trigger] g.lanes[k].entries[i]).full_hash
            == id.1;
        assert(commit_node(g, k, i).id == id);
    }
}

proof fn lemma_head_edges_join(g: CommitGraphView, m: int)
    requires
        0 <= m <= g.lanes.len(),
    ensures
        edges_join(settled_nodes(g), head_edges(g, m)),
    decreases m,
{
    if m > 0 {
        lemma_head_edges_join(g, m - 1);
        lemma_lane_head_edges_join(g, m - 1, g.lanes[m - 1].entries.len() as int);
        lemma_edges_join_concat(
            settled_nodes(g),
            head_edges(g, m - 1),
            lane_head_edges(g, m - 1, g.lanes[m - 1].entries.len() as int),
        );
    }
}

proof fn lemma_lane_head_edges_join(g: CommitGraphView, k: int, n: int)
    requires
        0 <= k < g.lanes.len(),
        0 <= n <= g.lanes[k].entries.len(),
    ensures
        edges_join(settled_nodes(g), lane_head_edges(g, k, n)),
    decreases n,
{
    if n > 0 {
        lemma_lane_head_edges_join(g, k, n - 1);
        lemma_settled_cards(g);
        let i = n - 1;
        let extra = entry_head_edges(g, k, i);
        assert(has_card(settled_nodes(g), commit_node(g, k, i).id));
        assert(edges_join(settled_nodes(g), extra)) by {
            if head_labels_at(g, k, i).len() > 0 {
                assert(has_card(settled_nodes(g), head_node(g, k, i).id));
            }
        }
        lemma_edges_join_concat(settled_nodes(g), lane_head_edges(g, k, n - 1), extra);
    }
}

proof fn lemma_entry_parent_edges_join(g: CommitGraphView, k: int, i: int, n: int)
    requires
        0 <= k < g.lanes.len(),
        0 <= i < g.lanes[k].entries.len(),
        0 <= n <= g.lanes[k].entries[i].parent_hashes.len(),
    ensures
        edges_join(settled_nodes(g), entry_parent_edges(g, k, i, n)),
    decreases n,
{
    if n > 0 {
        lemma_entry_parent_edges_join(g, k, i, n - 1);
        lemma_settled_cards(g);
        let lane = g.lanes[k];
        let p = lane.entries[i].parent_hashes[n - 1];
        let extra = if graph_has_commit(g, (lane.id, p)) {
            seq![CanvasEdgeView { from: (lane.id, lane.entries[i].full_hash), to: (lane.id, p), kind: CanvasEdgeKind::Parent }]
        } else {
            Seq::empty()
        };
        assert(has_card(settled_nodes(g), commit_node(g, k, i).id));
        assert(edges_join(settled_nodes(g), extra));
        lemma_edges_join_concat(settled_nodes(g), entry_parent_edges(g, k, i, n - 1), extra);
    }
}

proof fn lemma_lane_parent_edges_join(g: CommitGraphView, k: int, n: int)
    requires
        0 <= k < g.lanes.len(),
        0 <= n <= g.lanes[k].entries.len(),
    ensures
        edges_join(settled_nodes(g), lane_parent_edges(g, k, n)),
    decreases n,
{
    if n > 0 {
        lemma_lane_parent_edges_join(g, k, n - 1);
        lemma_entry_parent_edges_join(g, k, n - 1, g.lanes[k].entries[n - 1].parent_hashes.len() as int);
        lemma_edges_join_concat(
            settled_nodes(g),
            lane_parent_edges(g, k, n - 1),
            entry_parent_edges(g, k, n - 1, g.lanes[k].entries[n - 1].parent_hashes.len() as int),
        );
    }
}

proof fn lemma_parent_edges_join(g: CommitGraphView, m: int)
    requires
        0 <= m <= g.lanes.len(),
    ensures
        edges_join(settled_nodes(g), parent_edges(g, m)),
    decreases m,
{
    if m > 0 {
        lemma_parent_edges_join(g, m - 1);
        lemma_lane_parent_edges_join(g, m - 1, g.lanes[m - 1].entries.len() as int);
        lemma_edges_join_concat(
            settled_nodes(g),
            parent_edges(g, m - 1),
            lane_parent_edges(g, m - 1, g.lanes[m - 1].entries.len() as int),
        );
    }
}

proof fn lemma_links_join(g: CommitGraphView, n: int)
    requires
        0 <= n <= g.submodule_links.len(),
    ensures
        edges_join(settled_nodes(g) + links_upto(g, settled_nodes(g), n).0, links_upto(g, settled_nodes(g), n).1),
    decreases n,
{
    if n > 0 {
        let settled = settled_nodes(g);
        lemma_links_join(g, n - 1);
        lemma_settled_cards(g);
        let state = links_upto(g, settled, n - 1);
        let link = g.submodule_links[n - 1];
        let from = ("main"@, link.0);
        let to = (link.1, link.2);
        let edge = CanvasEdgeView { from, to, kind: CanvasEdgeKind::Submodule };
        let lane = last_lane_index(g.lanes, link.1, g.lanes.len() as int);
        let nodes = settled + state.0;
        assert forall|id: (Seq<char>, Seq<char>)| known_card(g, state.0, id) implies has_card(nodes, id) by {
            if graph_has_commit(g, id) {
                lemma_has_card_concat(settled, state.0, id);
            } else {
                lemma_has_card_concat(settled, state.0, id);
            }
        }
        if !known_card(g, state.0, from) {
        } else if known_card(g, state.0, to) {
            assert(edges_join(nodes, seq![edge]));
            lemma_edges_join_concat(nodes, state.1, seq![edge]);
            assert(state.1.push(edge) =~= state.1 + seq![edge]);
        } else if lane < g.lanes.len() {
            let p = placeholder(to, lane_x(g.lanes, lane), row_of(settled, from));
            let grown = settled + state.0.push(p);
            assert(grown =~= nodes + seq![p]);
            lemma_edges_join_grow(nodes, seq![p], state.1);
            lemma_has_card_concat(nodes, seq![p], from);
            assert(grown[grown.len() - 1] == p);
            assert(has_card(grown, to));
            assert(edges_join(grown, seq![edge]));
            lemma_edges_join_concat(grown, state.1, seq![edge]);
            assert(state.1.push(edge) =~= state.1 + seq![edge]);
        }
    }
}

/// Every connection on the canvas (HEAD, parent and submodule) joins two
/// cards that are on the canvas.
pub proof fn connections_join_cards(g: CommitGraphView)
    ensures
        edges_join(canvas_of(g).nodes, canvas_of(g).edges),
{
    let settled = settled_nodes(g);
    let links = links_upto(g, settled, g.submodule_links.len() as int);
    lemma_head_edges_join(g, g.lanes.len() as int);
    lemma_parent_edges_join(g, g.lanes.len() as int);
    lemma_links_join(g, g.submodule_links.len() as int);
    lemma_edges_join_grow(settled, links.0, head_edges(g, g.lanes.len() as int));
    lemma_edges_join_grow(settled, links.0, parent_edges(g, g.lanes.len() as int));
    lemma_edges_join_concat(
        settled + links.0,
        head_edges(g, g.lanes.len() as int),
        parent_edges(g, g.lanes.len() as int),
    );
    lemma_edges_join_concat(
        settled + links.0,
        head_edges(g, g.lanes.len() as int) + parent_edges(g, g.lanes.len() as int),
        links.1,
    );
}

} // verus!


verus! {

proof fn lemma_edge_contains_concat(a: Seq<CanvasEdgeView>, b: Seq<CanvasEdgeView>, e: CanvasEdgeView)
    ensures
        a.contains(e) ==> (a + b).contains(e),
        b.contains(e) ==> (a + b).contains(e),
{
    if a.contains(e) {
        let j = choose|j: int| 0 <= j < a.len() && a[j] == e;
        assert((a + b)[j] == e);
    }
    if b.contains(e) {
        let j = choose|j: int| 0 <= j < b.len() && b[j] == e;
        assert((a + b)[a.len() + j] == e);
    }
}

/// The parent connection from entry `i` of lane `k` to its `n`-th parent.
pub open spec fn parent_link(g: CommitGraphView, k: int, i: int, n: int) -> CanvasEdgeView {
    CanvasEdgeView {
        from: (g.lanes[k].id, g.lanes[k].entries[i].full_hash),
        to: (g.lanes[k].id, g.lanes[k].entries[i].parent_hashes[n]),
        kind: CanvasEdgeKind::Parent,
    }
}

/// Whether some lane with this id lists this commit.
pub open spec fn lane_id_lists(g: CommitGraphView, lane_id: Seq<char>, commit: Seq<char>) -> bool {
    exists|k2: int, j: int|
        0 <= k2 < g.lanes.len() && 0 <= j < g.lanes[k2].entries.len() && (#[trigger] g.lanes[k2]).id == lane_id
            && (#[trigger] g.lanes[k2].entries[j]).full_hash == commit
}

proof fn lemma_entry_parent_edges_hold(g: CommitGraphView, k: int, i: int, n: int)
    requires
        0 <= k < g.lanes.len(),
        0 <= i < g.lanes[k].entries.len(),
        0 <= n <= g.lanes[k].entries[i].parent_hashes.len(),
    ensures
        forall|t: int|
            0 <= t < n && lane_id_lists(g, g.lanes[k].id, g.lanes[k].entries[i].parent_hashes[t])
                ==> entry_parent_edges(g, k, i, n).contains(#[trigger] parent_link(g, k, i, t)),
    decreases n,
{
    if n > 0 {
        lemma_entry_parent_edges_hold(g, k, i, n - 1);
        let lane = g.lanes[k];
        let p = lane.entries[i].parent_hashes[n - 1];
        let before = entry_parent_edges(g, k, i, n - 1);
        let extra = if graph_has_commit(g, (lane.id, p)) {
            seq![parent_link(g, k, i, n - 1)]
        } else {
            Seq::empty()
        };
        assert(entry_parent_edges(g, k, i, n) == before + extra);
        assert forall|t: int|
            0 <= t < n && lane_id_lists(g, g.lanes[k].id, g.lanes[k].entries[i].parent_hashes[t])
                implies entry_parent_edges(g, k, i, n).contains(#[trigger] parent_link(g, k, i, t)) by {
            lemma_edge_contains_concat(before, extra, parent_link(g, k, i, t));
            if t == n - 1 {
                let (k2, j) = choose|k2: int, j: int|
                    0 <= k2 < g.lanes.len() && 0 <= j < g.lanes[k2].entries.len() && (#[trigger] g.lanes[k2]).id
                        == lane.id && (#[trigger] g.lanes[k2].entries[j]).full_hash == p;
                assert(lane_has_commit(g.lanes[k2], p));
                assert(graph_has_commit(g, (lane.id, p)));
                assert(extra[0] == parent_link(g, k, i, t));
            }
        }
    }
}

proof fn lemma_lane_parent_edges_hold(g: CommitGraphView, k: int, m: int)
    requires
        0 <= k < g.lanes.len(),
        0 <= m <= g.lanes[k].entries.len(),
    ensures
        forall|i: int, t: int|
            0 <= i < m && 0 <= t < g.lanes[k].entries[i].parent_hashes.len() && lane_id_lists(
                g,
                g.lanes[k].id,
                g.lanes[k].entries[i].parent_hashes[t],
            ) ==> lane_parent_edges(g, k, m).contains(#[trigger] parent_link(g, k, i, t)),
    decreases m,
{
    if m > 0 {
        lemma_lane_parent_edges_hold(g, k, m - 1);
        let before = lane_parent_edges(g, k, m - 1);
        let last = entry_parent_edges(g, k, m - 1, g.lanes[k].entries[m - 1].parent_hashes.len() as int);
        lemma_entry_parent_edges_hold(g, k, m - 1, g.lanes[k].entries[m - 1].parent_hashes.len() as int);
        assert forall|i: int, t: int|
            0 <= i < m && 0 <= t < g.lanes[k].entries[i].parent_hashes.len() && lane_id_lists(
                g,
                g.lanes[k].id,
                g.lanes[k].entries[i].parent_hashes[t],
            ) implies lane_parent_edges(g, k, m).contains(#[trigger] parent_link(g, k, i, t)) by {
            lemma_edge_contains_concat(before, last, parent_link(g, k, i, t));
        }
    }
}

proof fn lemma_parent_edges_hold(g: CommitGraphView, m: int)
    requires
        0 <= m <= g.lanes.len(),
    ensures
        forall|k: int, i: int, t: int|
            0 <= k < m && 0 <= i < g.lanes[k].entries.len() && 0 <= t < g.lanes[k].entries[i].parent_hashes.len()
                && lane_id_lists(g, g.lanes[k].id, g.lanes[k].entries[i].parent_hashes[t])
                ==> parent_edges(g, m).contains(#[trigger] parent_link(g, k, i, t)),
    decreases m,
{
    if m > 0 {
        lemma_parent_edges_hold(g, m - 1);
        let before = parent_edges(g, m - 1);
        let last = lane_parent_edges(g, m - 1, g.lanes[m - 1].entries.len() as int);
        lemma_lane_parent_edges_hold(g, m - 1, g.lanes[m - 1].entries.len() as int);
        assert forall|k: int, i: int, t: int|
            0 <= k < m && 0 <= i < g.lanes[k].entries.len() && 0 <= t < g.lanes[k].entries[i].parent_hashes.len()
                && lane_id_lists(g, g.lanes[k].id, g.lanes[k].entries[i].parent_hashes[t])
                implies parent_edges(g, m).contains(#[trigger] parent_link(g, k, i, t)) by {
            lemma_edge_contains_concat(before, last, parent_link(g, k, i, t));
        }
    }
}

/// Every commit is connected to each of its parents that is loaded in a
/// lane with the same id: for every lane, entry and position in its parent
/// list (the first parent and every merged one alike), the canvas holds a
/// parent connection from the entry's card to that parent's card.
pub proof fn every_loaded_parent_is_connected(g: CommitGraphView)
    ensures
        forall|k: int, i: int, t: int|
            0 <= k < g.lanes.len() && 0 <= i < g.lanes[k].entries.len() && 0 <= t < g.lanes[k].entries[i].parent_hashes.len()
                && lane_id_lists(g, g.lanes[k].id, g.lanes[k].entries[i].parent_hashes[t])
                ==> canvas_of(g).edges.contains(#[trigger] parent_link(g, k, i, t)),
{
    let m = g.lanes.len() as int;
    lemma_parent_edges_hold(g, m);
    let settled = settled_nodes(g);
    let links = links_upto(g, settled, g.submodule_links.len() as int);
    assert forall|k: int, i: int, t: int|
        0 <= k < g.lanes.len() && 0 <= i < g.lanes[k].entries.len() && 0 <= t < g.lanes[k].entries[i].parent_hashes.len()
            && lane_id_lists(g, g.lanes[k].id, g.lanes[k].entries[i].parent_hashes[t])
            implies canvas_of(g).edges.contains(#[trigger] parent_link(g, k, i, t)) by {
        let e = parent_link(g, k, i, t);
        lemma_edge_contains_concat(head_edges(g, m), parent_edges(g, m), e);
        lemma_edge_contains_concat(head_edges(g, m) + parent_edges(g, m), links.1, e);
    }
}


/// Whether every connection in a list is of the given kind.
pub open spec fn all_of_kind(edges: Seq<CanvasEdgeView>, kind: CanvasEdgeKind) -> bool {
    forall|j: int| 0 <= j < edges.len() ==> (#[trigger] edges[j]).kind == kind
}

proof fn lemma_all_of_kind_concat(a: Seq<CanvasEdgeView>, b: Seq<CanvasEdgeView>, kind: CanvasEdgeKind)
    requires
        all_of_kind(a, kind),
        all_of_kind(b, kind),
    ensures
        all_of_kind(a + b, kind),
{
    assert forall|j: int| 0 <= j < (a + b).len() implies (#[trigger] (a + b)[j]).kind == kind by {
        if j < a.len() {
            assert((a + b)[j] == a[j]);
        } else {
            assert((a + b)[j] == b[j - a.len()]);
        }
    }
}

proof fn lemma_head_edges_kind(g: CommitGraphView, m: int)
    ensures
        all_of_kind(head_edges(g, m), CanvasEdgeKind::Head),
    decreases m,
{
    if m > 0 {
        lemma_head_edges_kind(g, m - 1);
        lemma_lane_head_edges_kind(g, m - 1, g.lanes[m - 1].entries.len() as int);
        lemma_all_of_kind_concat(
            head_edges(g, m - 1),
            lane_head_edges(g, m - 1, g.lanes[m - 1].entries.len() as int),
            CanvasEdgeKind::Head,
        );
    }
}

proof fn lemma_lane_head_edges_kind(g: CommitGraphView, k: int, n: int)
    ensures
        all_of_kind(lane_head_edges(g, k, n), CanvasEdgeKind::Head),
    decreases n,
{
    if n > 0 {
        lemma_lane_head_edges_kind(g, k, n - 1);
        lemma_all_of_kind_concat(lane_head_edges(g, k, n - 1), entry_head_edges(g, k, n - 1), CanvasEdgeKind::Head);
    }
}

proof fn lemma_link_edges_kind(g: CommitGraphView, settled: Seq<CanvasNodeView>, n: int)
    ensures
        all_of_kind(links_upto(g, settled, n).1, CanvasEdgeKind::Submodule),
    decreases n,
{
    if n > 0 {
        lemma_link_edges_kind(g, settled, n - 1);
        let state = links_upto(g, settled, n - 1);
        let link = g.submodule_links[n - 1];
        let edge = CanvasEdgeView { from: ("main"@, link.0), to: (link.1, link.2), kind: CanvasEdgeKind::Submodule };
        assert forall|j: int| 0 <= j < state.1.push(edge).len() implies (#[trigger] state.1.push(edge)[j]).kind
            == CanvasEdgeKind::Submodule by {
            if j < state.1.len() {
                assert(state.1.push(edge)[j] == state.1[j]);
            }
        }
    }
}

/// Whether a connection joins an entry to one of its parents loaded in a
/// lane with the same id.
pub open spec fn is_loaded_parent_link(g: CommitGraphView, e: CanvasEdgeView) -> bool {
    exists|k: int, i: int, t: int|
        0 <= k < g.lanes.len() && 0 <= i < g.lanes[k].entries.len() && 0 <= t < g.lanes[k].entries[i].parent_hashes.len()
            && lane_id_lists(g, g.lanes[k].id, g.lanes[k].entries[i].parent_hashes[t]) && e == #[trigger] parent_link(
            g,
            k,
            i,
            t,
        )
}

proof fn lemma_parent_edges_sound(g: CommitGraphView, m: int)
    requires
        0 <= m <= g.lanes.len(),
    ensures
        forall|j: int| 0 <= j < parent_edges(g, m).len() ==> is_loaded_parent_link(g, #[trigger] parent_edges(g, m)[j]),
    decreases m,
{
    if m > 0 {
        lemma_parent_edges_sound(g, m - 1);
        let k = m - 1;
        let before = parent_edges(g, k);
        let last = lane_parent_edges(g, k, g.lanes[k].entries.len() as int);
        lemma_lane_parent_edges_sound(g, k, g.lanes[k].entries.len() as int);
        assert forall|j: int| 0 <= j < parent_edges(g, m).len() implies is_loaded_parent_link(
            g,
            #[trigger] parent_edges(g, m)[j],
        ) by {
            if j < before.len() {
                assert((before + last)[j] == before[j]);
            } else {
                assert((before + last)[j] == last[j - before.len()]);
            }
        }
    }
}

proof fn lemma_lane_parent_edges_sound(g: CommitGraphView, k: int, m: int)
    requires
        0 <= k < g.lanes.len(),
        0 <= m <= g.lanes[k].entries.len(),
    ensures
        forall|j: int|
            0 <= j < lane_parent_edges(g, k, m).len() ==> is_loaded_parent_link(g, #[trigger] lane_parent_edges(g, k, m)[j]),
    decreases m,
{
    if m > 0 {
        lemma_lane_parent_edges_sound(g, k, m - 1);
        let before = lane_parent_edges(g, k, m - 1);
        let last = entry_parent_edges(g, k, m - 1, g.lanes[k].entries[m - 1].parent_hashes.len() as int);
        lemma_entry_parent_edges_sound(g, k, m - 1, g.lanes[k].entries[m - 1].parent_hashes.len() as int);
        assert forall|j: int| 0 <= j < lane_parent_edges(g, k, m).len() implies is_loaded_parent_link(
            g,
            #[trigger] lane_parent_edges(g, k, m)[j],
        ) by {
            if j < before.len() {
                assert((before + last)[j] == before[j]);
            } else {
                assert((before + last)[j] == last[j - before.len()]);
            }
        }
    }
}

proof fn lemma_entry_parent_edges_sound(g: CommitGraphView, k: int, i: int, n: int)
    requires
        0 <= k < g.lanes.len(),
        0 <= i < g.lanes[k].entries.len(),
        0 <= n <= g.lanes[k].entries[i].parent_hashes.len(),
    ensures
        forall|j: int|
            0 <= j < entry_parent_edges(g, k, i, n).len() ==> is_loaded_parent_link(
                g,
                #[trigger] entry_parent_edges(g, k, i, n)[j],
            ),
    decreases n,
{
    if n > 0 {
        lemma_entry_parent_edges_sound(g, k, i, n - 1);
        let lane = g.lanes[k];
        let p = lane.entries[i].parent_hashes[n - 1];
        let before = entry_parent_edges(g, k, i, n - 1);
        let extra = if graph_has_commit(g, (lane.id, p)) {
            seq![parent_link(g, k, i, n - 1)]
        } else {
            Seq::empty()
        };
        assert(entry_parent_edges(g, k, i, n) == before + extra);
        assert forall|j: int| 0 <= j < entry_parent_edges(g, k, i, n).len() implies is_loaded_parent_link(
            g,
            #[trigger] entry_parent_edges(g, k, i, n)[j],
        ) by {
            if j < before.len() {
                assert((before + extra)[j] == before[j]);
            } else {
                assert((before + extra)[j] == extra[0]);
                let k2 = choose|k2: int| 0 <= k2 < g.lanes.len() && (#[trigger] g.lanes[k2]).id == lane.id
                    && lane_has_commit(g.lanes[k2], p);
                let j2 = choose|j2: int| 0 <= j2 < g.lanes[k2].entries.len() && (#[trigger] g.lanes[k2].entries[j2]).full_hash
                    == p;
                assert(lane_id_lists(g, lane.id, p));
                assert(parent_link(g, k, i, n - 1) == extra[0]);
            }
        }
    }
}

/// The parent connections on the canvas are exactly those from an entry to
/// one of its parents loaded in a lane with the same id: every such parent
/// is connected, and every parent connection is one of them.
pub proof fn parent_connections_are_the_loaded_parents(g: CommitGraphView)
    ensures
        forall|e: CanvasEdgeView|
            #[trigger] canvas_of(g).edges.contains(e) && e.kind == CanvasEdgeKind::Parent ==> is_loaded_parent_link(g, e),
        forall|k: int, i: int, t: int|
            0 <= k < g.lanes.len() && 0 <= i < g.lanes[k].entries.len() && 0 <= t < g.lanes[k].entries[i].parent_hashes.len()
                && lane_id_lists(g, g.lanes[k].id, g.lanes[k].entries[i].parent_hashes[t])
                ==> canvas_of(g).edges.contains(#[trigger] parent_link(g, k, i, t)),
{
    every_loaded_parent_is_connected(g);
    let m = g.lanes.len() as int;
    let settled = settled_nodes(g);
    let links = links_upto(g, settled, g.submodule_links.len() as int);
    let h = head_edges(g, m);
    let pe = parent_edges(g, m);
    lemma_head_edges_kind(g, m);
    lemma_link_edges_kind(g, settled, g.submodule_links.len() as int);
    lemma_parent_edges_sound(g, m);
    assert forall|e: CanvasEdgeView| #[trigger] canvas_of(g).edges.contains(e) && e.kind == CanvasEdgeKind::Parent
        implies is_loaded_parent_link(g, e) by {
        let all = canvas_of(g).edges;
        assert(all == h + pe + links.1);
        let j = choose|j: int| 0 <= j < all.len() && all[j] == e;
        if j < h.len() {
            assert(all[j] == h[j]);
        } else if j < h.len() + pe.len() {
            assert(all[j] == pe[j - h.len()]);
        } else {
            assert(all[j] == links.1[j - h.len() - pe.len()]);
        }
    }
}
} // verus!
