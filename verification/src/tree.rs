//! Sway's layout tree and the workspaces of one output.

use vstd::prelude::*;
use crate::text::{decimal, lemma_decimal_len, lemma_parse_decimal, lemma_parse_unsigned_nonneg, parse_unsigned, parse_unsigned_chars, starts_with_at, to_chars};
use crate::xdg::IconLoader;

verus! {

broadcast use vstd::string::group_string_axioms;

/// Number of workspaces rendered.
pub const WORKSPACE_COUNT: usize = 5;

/// Kinds of Sway tree nodes.
#[derive(Clone, Copy, PartialEq, Eq, Structural, Debug)]
pub enum NodeType {
    Root,
    Output,
    Workspace,
    Con,
}

/// Sway tree node.
#[derive(Debug, PartialEq, Eq)]
pub struct Node {
    pub node_type: NodeType,
    pub name: Option<String>,
    pub app_id: Option<String>,
    pub current_workspace: Option<String>,
    pub nodes: Vec<Node>,
}

/// A workspace icon.
#[derive(Debug, PartialEq, Eq)]
pub enum Icon {
    /// The built-in icon of an empty workspace.
    Empty,
    /// The built-in icon of a workspace with an application that has no icon.
    Full,
    /// The icon file of an application.
    Path(Vec<u8>),
}

/// The value of an [`Icon`].
pub enum IconView {
    Empty,
    Full,
    Path(Seq<u8>),
}

impl DeepView for Icon {
    type V = IconView;

    open spec fn deep_view(&self) -> IconView {
        match self {
            Icon::Empty => IconView::Empty,
            Icon::Full => IconView::Full,
            Icon::Path(p) => IconView::Path(p@),
        }
    }
}

/// Whether an icon is one of the built-in ones.
pub open spec fn is_builtin(icon: IconView) -> bool {
    !(icon is Path)
}

/// Priority of an `app_id` for workspace icons: `firefox` first, every other
/// application after it (`usize::MAX`).
pub open spec fn icon_priority(app_id: Seq<char>) -> int {
    if app_id == "firefox"@ {
        0
    } else {
        usize::MAX as int
    }
}

/// The icon of an application, from the `app_id` cache: its icon file, or the
/// built-in full-workspace icon.
pub open spec fn app_icon(app_ids: Map<Seq<char>, Option<Seq<u8>>>, app_id: Seq<char>) -> IconView {
    match app_ids[app_id] {
        Some(path) => IconView::Path(path),
        None => IconView::Full,
    }
}

/// Which of the icon found so far in a container and the icon of its next
/// child wins: the first one found; a built-in icon is always replaced; a
/// found icon file is replaced only by another found icon file whose
/// application has a strictly better priority.
pub open spec fn better_icon(
    current: Option<(Seq<char>, IconView)>,
    child: Option<(Seq<char>, IconView)>,
) -> Option<(Seq<char>, IconView)> {
    match child {
        None => current,
        Some((child_app_id, child_icon)) => match current {
            None => child,
            Some((app_id, icon)) => if is_builtin(icon) {
                child
            } else if !is_builtin(child_icon) && icon_priority(child_app_id) < icon_priority(
                app_id,
            ) {
                child
            } else {
                current
            },
        },
    }
}

/// Whether a node is an application: a container with an `app_id`.
pub open spec fn is_app(node: Node) -> bool {
    node.node_type == NodeType::Con && node.app_id is Some
}

/// The `app_id` and icon of a subtree, as the workspace icon search picks it.
pub open spec fn node_icon(node: Node, app_ids: Map<Seq<char>, Option<Seq<u8>>>) -> Option<
    (Seq<char>, IconView),
>
    decreases node, node.nodes@.len() + 1,
{
    if is_app(node) {
        let app_id = node.app_id.unwrap()@;
        Some((app_id, app_icon(app_ids, app_id)))
    } else {
        children_icon(node, node.nodes@.len() as int, app_ids)
    }
}

/// The icon picked among the first `k` children of a node.
pub open spec fn children_icon(
    node: Node,
    k: int,
    app_ids: Map<Seq<char>, Option<Seq<u8>>>,
) -> Option<(Seq<char>, IconView)>
    decreases node, k,
{
    if k <= 0 || k > node.nodes@.len() {
        None
    } else {
        better_icon(
            children_icon(node, k - 1, app_ids),
            node_icon(node.nodes@[k - 1], app_ids),
        )
    }
}

/// The `app_id`s whose icons the search in a subtree looks up, in order.
pub open spec fn node_queries(node: Node) -> Seq<Seq<char>>
    decreases node, node.nodes@.len() + 1,
{
    if is_app(node) {
        seq![node.app_id.unwrap()@]
    } else {
        children_queries(node, node.nodes@.len() as int)
    }
}

/// The `app_id`s that the first `k` children of a node look up.
pub open spec fn children_queries(node: Node, k: int) -> Seq<Seq<char>>
    decreases node, k,
{
    if k <= 0 || k > node.nodes@.len() {
        Seq::empty()
    } else {
        children_queries(node, k - 1) + node_queries(node.nodes@[k - 1])
    }
}

/// Whether every `app_id` in `queries` has been looked up.
pub open spec fn all_cached(queries: Seq<Seq<char>>, app_ids: Map<Seq<char>, Option<Seq<u8>>>) -> bool {
    forall|i: int| 0 <= i < queries.len() ==> app_ids.contains_key(#[trigger] queries[i])
}

/// The view of a found icon.
pub open spec fn found_view(r: Option<(String, Icon)>) -> Option<(Seq<char>, IconView)> {
    match r {
        Some((app_id, icon)) => Some((app_id@, icon.deep_view())),
        None => None,
    }
}

proof fn lemma_children_queries_prefix(node: Node, k: int, j: int)
    requires
        0 <= j <= k <= node.nodes@.len(),
    ensures
        children_queries(node, k).take(children_queries(node, j).len() as int) == children_queries(
            node,
            j,
        ),
        children_queries(node, j).len() <= children_queries(node, k).len(),
    decreases k - j,
{
    if j < k {
        lemma_children_queries_prefix(node, k - 1, j);
        assert(children_queries(node, k).take(children_queries(node, k - 1).len() as int)
            =~= children_queries(node, k - 1));
        assert(children_queries(node, k).take(children_queries(node, j).len() as int)
            =~= children_queries(node, k - 1).take(children_queries(node, j).len() as int));
    }
}

/// All of a subtree's lookups cached means all of each child's are.
proof fn lemma_child_cached(
    node: Node,
    k: int,
    app_ids: Map<Seq<char>, Option<Seq<u8>>>,
)
    requires
        0 <= k < node.nodes@.len(),
        all_cached(children_queries(node, node.nodes@.len() as int), app_ids),
    ensures
        all_cached(node_queries(node.nodes@[k]), app_ids),
{
    lemma_children_queries_prefix(node, node.nodes@.len() as int, k + 1);
    let all = children_queries(node, node.nodes@.len() as int);
    let upto = children_queries(node, k + 1);
    let before = children_queries(node, k);
    let q = node_queries(node.nodes@[k]);
    assert(upto == before + q);
    assert forall|i: int| 0 <= i < q.len() implies app_ids.contains_key(#[trigger] q[i]) by {
        assert(upto[before.len() + i] == q[i]);
        assert(all.take(upto.len() as int)[before.len() + i] == q[i]);
        assert(all[before.len() + i] == q[i]);
    }
}

/// The position of an `app_id` in the icon priority list (`firefox`), or
/// `usize::MAX` where it is not listed.
fn priority_of(app_id: &String) -> (r: usize)
    ensures
        r == icon_priority(app_id@),
{
    let firefox = "firefox".to_owned();
    if *app_id == firefox {
        0
    } else {
        usize::MAX
    }
}

/// Determine workspace icon based on apps inside the workspace.
///
/// The following priority is used to pick an icon:
///  - Lowest index in the priority list (`firefox`), among apps whose icon
///    file was found
///  - Order in the tree (earliest is preferred)
///  - the full-workspace icon if the workspace contains any app, but none
///    whose icon file was found
///  - nothing, for the empty-workspace icon
///
/// The icons of the applications come from the icon loader's `app_id` cache,
/// which must hold every `app_id` that the search looks up.
pub fn workspace_icon(icon_loader: &IconLoader, node: &Node) -> (r: Option<(String, Icon)>)
    requires
        icon_loader.wf(),
        all_cached(node_queries(*node), icon_loader.app_ids()),
    ensures
        found_view(r) == node_icon(*node, icon_loader.app_ids()),
    decreases node,
{
    // For applications, immediately return the `app_id` and icon.
    if node.node_type == NodeType::Con {
        if let Some(app_id) = &node.app_id {
            assert(node_queries(*node)[0] == app_id@);
            let icon = match icon_loader.cached_icon_path(app_id) {
                Some(path) => {
                    assert(path.deep_view() =~= path@);
                    Icon::Path(path)
                },
                None => Icon::Full,
            };
            return Some((app_id.clone(), icon));
        }
    }
    let ghost app_ids = icon_loader.app_ids();
    // For containers, check whether any child has a better icon.
    let mut icon: Option<(String, Icon)> = None;
    let mut i: usize = 0;
    while i < node.nodes.len()
        invariant
            i <= node.nodes@.len(),
            !is_app(*node),
            icon_loader.wf(),
            app_ids == icon_loader.app_ids(),
            all_cached(children_queries(*node, node.nodes@.len() as int), app_ids),
            found_view(icon) == children_icon(*node, i as int, app_ids),
        decreases node.nodes@.len() - i,
    {
        proof {
            lemma_child_cached(*node, i as int, app_ids);
        }
        let child = workspace_icon(icon_loader, &node.nodes[i]);
        let ghost before = found_view(icon);
        let ghost child_view = found_view(child);
        icon = match child {
            None => icon,
            Some((child_app_id, child_icon)) => match icon {
                None => Some((child_app_id, child_icon)),
                Some((app_id, current)) => {
                    let builtin = match &current {
                        Icon::Path(_) => false,
                        _ => true,
                    };
                    let child_found = match &child_icon {
                        Icon::Path(_) => true,
                        _ => false,
                    };
                    if builtin {
                        // Always replace built-in icons.
                        Some((child_app_id, child_icon))
                    } else if child_found && priority_of(&child_app_id) < priority_of(&app_id) {
                        // Determine priority based on fallback list.
                        Some((child_app_id, child_icon))
                    } else {
                        Some((app_id, current))
                    }
                },
            },
        };
        assert(found_view(icon) == better_icon(before, child_view));
        i += 1;
    }
    icon
}

/// The `app_id`s that `workspace_icon` looks up in a subtree, in order.
pub fn icon_queries(node: &Node, out: &mut Vec<String>)
    ensures
        final(out)@.map_values(|s: String| s@) == old(out)@.map_values(|s: String| s@)
            + node_queries(*node),
    decreases node,
{
    if node.node_type == NodeType::Con {
        if let Some(app_id) = &node.app_id {
            let ghost before = out@.map_values(|s: String| s@);
            out.push(app_id.clone());
            assert(out@.map_values(|s: String| s@) =~= before + node_queries(*node));
            return;
        }
    }
    let ghost start = out@.map_values(|s: String| s@);
    let mut i: usize = 0;
    while i < node.nodes.len()
        invariant
            i <= node.nodes@.len(),
            !is_app(*node),
            out@.map_values(|s: String| s@) == start + children_queries(*node, i as int),
        decreases node.nodes@.len() - i,
    {
        icon_queries(&node.nodes[i], out);
        i += 1;
        assert(out@.map_values(|s: String| s@) =~= start + children_queries(*node, i as int));
    }
}

/// Current workspace state.
#[derive(Debug, PartialEq, Eq)]
pub struct Workspace {
    pub icon: Icon,
    pub focused: bool,
}

/// The value of a [`Workspace`].
pub struct WorkspaceView {
    pub icon: IconView,
    pub focused: bool,
}

impl DeepView for Workspace {
    type V = WorkspaceView;

    open spec fn deep_view(&self) -> WorkspaceView {
        WorkspaceView { icon: self.icon.deep_view(), focused: self.focused }
    }
}

impl Workspace {
    /// An empty, unfocused workspace.
    pub fn default() -> (r: Self)
        ensures
            r.deep_view() == empty_workspace(),
    {
        Workspace { icon: Icon::Empty, focused: false }
    }
}

/// An empty, unfocused workspace.
pub open spec fn empty_workspace() -> WorkspaceView {
    WorkspaceView { icon: IconView::Empty, focused: false }
}

/// All workspaces empty.
pub open spec fn empty_workspaces() -> Seq<WorkspaceView> {
    Seq::new(WORKSPACE_COUNT as nat, |i: int| empty_workspace())
}

/// The characters of an optional string.
pub open spec fn opt_view(s: Option<String>) -> Option<Seq<char>> {
    match s {
        Some(s) => Some(s@),
        None => None,
    }
}

/// Extract workspace index from its name: the output's name, `-`, and a
/// number.
pub open spec fn workspace_index(name: Seq<char>, output: Seq<char>) -> Option<int> {
    if name.len() > output.len() && name.take(output.len() as int) == output && name[output.len() as int]
        == '-' {
        parse_unsigned(name.skip(output.len() + 1 as int), usize::MAX as int)
    } else {
        None
    }
}

/// The workspace index of a workspace node, if it has one.
pub open spec fn node_workspace_index(node: Node, output: Seq<char>) -> Option<int> {
    if node.node_type == NodeType::Workspace {
        match node.name {
            Some(name) => workspace_index(name@, output),
            None => None,
        }
    } else {
        None
    }
}

/// The position of the first output node of the given name, at or after `i`,
/// or -1.
pub open spec fn output_index_from(nodes: Seq<Node>, output: Seq<char>, i: int) -> int
    decreases nodes.len() - i,
{
    if i < 0 || i >= nodes.len() {
        -1
    } else if nodes[i].node_type == NodeType::Output && opt_view(nodes[i].name) == Some(output) {
        i
    } else {
        output_index_from(nodes, output, i + 1)
    }
}

/// The output node of the given name in a root node, if the tree is a root
/// and has one.
pub open spec fn selected_output(tree: Node, output: Seq<char>) -> Option<Node> {
    if tree.node_type != NodeType::Root {
        None
    } else {
        let i = output_index_from(tree.nodes@, output, 0);
        if i < 0 {
            None
        } else {
            Some(tree.nodes@[i])
        }
    }
}

/// The workspaces after the first `k` children of the output node.
pub open spec fn apply_workspace_nodes(
    ws: Seq<WorkspaceView>,
    output_node: Node,
    k: int,
    output: Seq<char>,
    app_ids: Map<Seq<char>, Option<Seq<u8>>>,
) -> Seq<WorkspaceView>
    decreases k,
{
    if k <= 0 || k > output_node.nodes@.len() {
        ws
    } else {
        let prev = apply_workspace_nodes(ws, output_node, k - 1, output, app_ids);
        let child = output_node.nodes@[k - 1];
        match node_workspace_index(child, output) {
            None => prev,
            Some(index) => prev.update(
                index,
                WorkspaceView {
                    focused: opt_view(child.name) == opt_view(output_node.current_workspace),
                    icon: match node_icon(child, app_ids) {
                        Some((_, icon)) => icon,
                        None => IconView::Empty,
                    },
                },
            ),
        }
    }
}

/// The workspaces after a tree update: a tree that is not a root changes
/// nothing; else every workspace is reset, and each workspace node of the
/// output sets the focus and icon of the workspace its name numbers.
pub open spec fn updated_workspaces(
    old: Seq<WorkspaceView>,
    tree: Node,
    output: Seq<char>,
    app_ids: Map<Seq<char>, Option<Seq<u8>>>,
) -> Seq<WorkspaceView> {
    if tree.node_type != NodeType::Root {
        old
    } else {
        match selected_output(tree, output) {
            None => empty_workspaces(),
            Some(output_node) => apply_workspace_nodes(
                empty_workspaces(),
                output_node,
                output_node.nodes@.len() as int,
                output,
                app_ids,
            ),
        }
    }
}

/// Whether every workspace node of the output that names a workspace index
/// names one below `WORKSPACE_COUNT`.
pub open spec fn indices_fit(output_node: Node, output: Seq<char>) -> bool {
    forall|j: int|
        0 <= j < output_node.nodes@.len() ==> match node_workspace_index(
            #[trigger] output_node.nodes@[j],
            output,
        ) {
            Some(index) => index < WORKSPACE_COUNT,
            None => true,
        }
}

/// Whether an update with this tree stays within the workspaces.
pub open spec fn tree_fits(tree: Node, output: Seq<char>) -> bool {
    match selected_output(tree, output) {
        Some(output_node) => indices_fit(output_node, output),
        None => true,
    }
}

/// The `app_id`s that the first `k` workspace nodes of the output look up.
pub open spec fn workspace_queries(output_node: Node, output: Seq<char>, k: int) -> Seq<
    Seq<char>,
>
    decreases k,
{
    if k <= 0 || k > output_node.nodes@.len() {
        Seq::empty()
    } else {
        let prev = workspace_queries(output_node, output, k - 1);
        let child = output_node.nodes@[k - 1];
        match node_workspace_index(child, output) {
            None => prev,
            Some(_) => prev + node_queries(child),
        }
    }
}

/// The `app_id`s that an update with this tree looks up, in order.
pub open spec fn tree_queries(tree: Node, output: Seq<char>) -> Seq<Seq<char>> {
    match selected_output(tree, output) {
        Some(output_node) => workspace_queries(
            output_node,
            output,
            output_node.nodes@.len() as int,
        ),
        None => Seq::empty(),
    }
}

proof fn lemma_workspace_queries_prefix(output_node: Node, output: Seq<char>, k: int, j: int)
    requires
        0 <= j <= k <= output_node.nodes@.len(),
    ensures
        workspace_queries(output_node, output, j).len() <= workspace_queries(
            output_node,
            output,
            k,
        ).len(),
        workspace_queries(output_node, output, k).take(
            workspace_queries(output_node, output, j).len() as int,
        ) == workspace_queries(output_node, output, j),
    decreases k - j,
{
    if j < k {
        lemma_workspace_queries_prefix(output_node, output, k - 1, j);
        let a = workspace_queries(output_node, output, k);
        let b = workspace_queries(output_node, output, k - 1);
        let c = workspace_queries(output_node, output, j);
        assert(a.take(b.len() as int) =~= b);
        assert(a.take(c.len() as int) =~= b.take(c.len() as int));
    }
}

proof fn lemma_workspace_child_cached(
    output_node: Node,
    output: Seq<char>,
    k: int,
    app_ids: Map<Seq<char>, Option<Seq<u8>>>,
)
    requires
        0 <= k < output_node.nodes@.len(),
        node_workspace_index(output_node.nodes@[k], output) is Some,
        all_cached(
            workspace_queries(output_node, output, output_node.nodes@.len() as int),
            app_ids,
        ),
    ensures
        all_cached(node_queries(output_node.nodes@[k]), app_ids),
{
    lemma_workspace_queries_prefix(output_node, output, output_node.nodes@.len() as int, k + 1);
    let all = workspace_queries(output_node, output, output_node.nodes@.len() as int);
    let upto = workspace_queries(output_node, output, k + 1);
    let before = workspace_queries(output_node, output, k);
    let q = node_queries(output_node.nodes@[k]);
    assert(upto == before + q);
    assert forall|i: int| 0 <= i < q.len() implies app_ids.contains_key(#[trigger] q[i]) by {
        assert(upto[before.len() + i] == q[i]);
        assert(all.take(upto.len() as int)[before.len() + i] == q[i]);
        assert(all[before.len() + i] == q[i]);
    }
}

/// Extract workspace index from its name.
fn workspace_index_of(name: &String, output: &Vec<char>) -> (r: Option<usize>)
    ensures
        r matches Some(i) ==> workspace_index(name@, output@) == Some(i as int),
        r is None ==> workspace_index(name@, output@) is None,
{
    let chars = to_chars(name.as_str());
    let k = output.len();
    if !starts_with_at(&chars, 0, output) || k >= chars.len() {
        proof {
            if chars@.len() > output@.len() {
                assert(chars@.subrange(0, output@.len() as int) =~= chars@.take(
                    output@.len() as int,
                ));
            }
        }
        return None;
    }
    assert(chars@.subrange(0, output@.len() as int) =~= chars@.take(output@.len() as int));
    if chars[k] != '-' {
        return None;
    }
    assert(chars@.subrange(k + 1, chars@.len() as int) =~= chars@.skip(k + 1));
    match parse_unsigned_chars(&chars, k + 1, chars.len(), usize::MAX as u64) {
        Some(v) => Some(v as usize),
        None => None,
    }
}

/// The workspace index of a workspace node.
fn node_workspace_index_of(node: &Node, output: &Vec<char>) -> (r: Option<usize>)
    ensures
        r matches Some(i) ==> node_workspace_index(*node, output@) == Some(i as int),
        r is None ==> node_workspace_index(*node, output@) is None,
{
    if node.node_type != NodeType::Workspace {
        return None;
    }
    match &node.name {
        Some(name) => workspace_index_of(name, output),
        None => None,
    }
}

/// Whether two optional strings are equal.
fn opt_string_eq(a: &Option<String>, b: &Option<String>) -> (r: bool)
    ensures
        r == (opt_view(*a) == opt_view(*b)),
{
    match (a, b) {
        (Some(a), Some(b)) => *a == *b,
        (None, None) => true,
        _ => false,
    }
}

/// The position of the output node named `output`.
fn find_output(tree: &Node, output: &String) -> (r: Option<usize>)
    ensures
        r matches Some(i) ==> output_index_from(tree.nodes@, output@, 0) == i && i
            < tree.nodes@.len(),
        r is None ==> output_index_from(tree.nodes@, output@, 0) == -1,
{
    let mut i: usize = 0;
    while i < tree.nodes.len()
        invariant
            i <= tree.nodes@.len(),
            output_index_from(tree.nodes@, output@, 0) == output_index_from(
                tree.nodes@,
                output@,
                i as int,
            ),
        decreases tree.nodes@.len() - i,
    {
        let node = &tree.nodes[i];
        let named = match &node.name {
            Some(name) => *name == *output,
            None => false,
        };
        if node.node_type == NodeType::Output && named {
            return Some(i);
        }
        i += 1;
    }
    None
}

/// The workspaces of one output.
pub struct WorkspaceState {
    workspaces: Vec<Workspace>,
    output_name: String,
}

impl WorkspaceState {
    /// The workspaces, in order.
    pub closed spec fn workspaces_view(&self) -> Seq<WorkspaceView> {
        self.workspaces@.map_values(|w: Workspace| w.deep_view())
    }

    /// The name of the output whose workspaces these are.
    pub closed spec fn output_view(&self) -> Seq<char> {
        self.output_name@
    }

    /// There are `WORKSPACE_COUNT` workspaces.
    pub open spec fn wf(&self) -> bool {
        self.workspaces_view().len() == WORKSPACE_COUNT
    }

    /// Initialize all workspaces as empty.
    pub fn new(output_name: String) -> (r: Self)
        ensures
            r.wf(),
            r.workspaces_view() == empty_workspaces(),
            r.output_view() == output_name@,
    {
        let mut workspaces: Vec<Workspace> = Vec::new();
        let mut i: usize = 0;
        while i < WORKSPACE_COUNT
            invariant
                i <= WORKSPACE_COUNT,
                workspaces@.len() == i,
                forall|k: int| 0 <= k < i ==> #[trigger] workspaces@[k].deep_view() == empty_workspace(),
            decreases WORKSPACE_COUNT - i,
        {
            workspaces.push(Workspace::default());
            i += 1;
        }
        let r = WorkspaceState { workspaces, output_name };
        assert(r.workspaces_view() =~= empty_workspaces());
        r
    }

    /// The workspaces, in order.
    pub fn workspaces(&self) -> (r: &Vec<Workspace>)
        ensures
            r@.map_values(|w: Workspace| w.deep_view()) == self.workspaces_view(),
    {
        &self.workspaces
    }

    /// The name of the output.
    pub fn output_name(&self) -> (r: &String)
        ensures
            r@ == self.output_view(),
    {
        &self.output_name
    }

    /// Whether the tree is a root with a node for this output.
    pub fn has_output(&self, tree: &Node) -> (r: bool)
        ensures
            r == selected_output(*tree, self.output_view()) is Some,
    {
        if tree.node_type != NodeType::Root {
            return false;
        }
        match find_output(tree, &self.output_name) {
            Some(_) => true,
            None => false,
        }
    }

    /// Whether every workspace that the tree numbers for this output exists,
    /// which `update_workspaces` needs.
    pub fn fits(&self, tree: &Node) -> (r: bool)
        ensures
            r == tree_fits(*tree, self.output_view()),
    {
        if tree.node_type != NodeType::Root {
            return true;
        }
        let index = match find_output(tree, &self.output_name) {
            Some(index) => index,
            None => return true,
        };
        let output_node = &tree.nodes[index];
        let output = to_chars(self.output_name.as_str());
        let mut j: usize = 0;
        while j < output_node.nodes.len()
            invariant
                j <= output_node.nodes@.len(),
                output@ == self.output_view(),
                selected_output(*tree, self.output_view()) == Some(*output_node),
                forall|k: int|
                    0 <= k < j ==> match node_workspace_index(
                        #[trigger] output_node.nodes@[k],
                        output@,
                    ) {
                        Some(index) => index < WORKSPACE_COUNT,
                        None => true,
                    },
            decreases output_node.nodes@.len() - j,
        {
            match node_workspace_index_of(&output_node.nodes[j], &output) {
                Some(index) => {
                    if index >= WORKSPACE_COUNT {
                        return false;
                    }
                },
                None => {},
            }
            j += 1;
        }
        true
    }

    /// The `app_id`s whose icons an update with this tree looks up, in order.
    pub fn icon_queries(&self, tree: &Node) -> (r: Vec<String>)
        ensures
            r@.map_values(|s: String| s@) == tree_queries(*tree, self.output_view()),
    {
        let mut out: Vec<String> = Vec::new();
        if tree.node_type != NodeType::Root {
            assert(out@.map_values(|s: String| s@) =~= Seq::<Seq<char>>::empty());
            return out;
        }
        let index = match find_output(tree, &self.output_name) {
            Some(index) => index,
            None => {
                assert(out@.map_values(|s: String| s@) =~= Seq::<Seq<char>>::empty());
                return out;
            },
        };
        let output_node = &tree.nodes[index];
        let output = to_chars(self.output_name.as_str());
        assert(out@.map_values(|s: String| s@) =~= workspace_queries(*output_node, output@, 0));
        let mut j: usize = 0;
        while j < output_node.nodes.len()
            invariant
                j <= output_node.nodes@.len(),
                output@ == self.output_view(),
                selected_output(*tree, self.output_view()) == Some(*output_node),
                out@.map_values(|s: String| s@) == workspace_queries(
                    *output_node,
                    output@,
                    j as int,
                ),
            decreases output_node.nodes@.len() - j,
        {
            match node_workspace_index_of(&output_node.nodes[j], &output) {
                Some(_) => {
                    icon_queries(&output_node.nodes[j], &mut out);
                },
                None => {},
            }
            j += 1;
        }
        out
    }

    /// Update the workspace state from Sway's layout tree.
    pub fn update_workspaces(&mut self, tree: &Node, icon_loader: &IconLoader)
        requires
            old(self).wf(),
            icon_loader.wf(),
            tree_fits(*tree, old(self).output_view()),
            all_cached(tree_queries(*tree, old(self).output_view()), icon_loader.app_ids()),
        ensures
            final(self).wf(),
            final(self).output_view() == old(self).output_view(),
            final(self).workspaces_view() == updated_workspaces(
                old(self).workspaces_view(),
                *tree,
                old(self).output_view(),
                icon_loader.app_ids(),
            ),
    {
        // Ignore invalid tree nodes.
        if tree.node_type != NodeType::Root {
            return;
        }
        // Reset all workspaces, since they might no longer exist.
        let mut i: usize = 0;
        while i < WORKSPACE_COUNT
            invariant
                i <= WORKSPACE_COUNT,
                self.workspaces@.len() == WORKSPACE_COUNT,
                self.output_name == old(self).output_name,
                forall|k: int|
                    0 <= k < i ==> #[trigger] self.workspaces@[k].deep_view() == empty_workspace(),
            decreases WORKSPACE_COUNT - i,
        {
            self.workspaces.set(i, Workspace::default());
            i += 1;
        }
        assert(self.workspaces_view() =~= empty_workspaces());
        // Get output node from tree.
        let index = match find_output(tree, &self.output_name) {
            Some(index) => index,
            None => return,
        };
        let output_node = &tree.nodes[index];
        let output = to_chars(self.output_name.as_str());
        let ghost app_ids = icon_loader.app_ids();
        // Process workspace nodes.
        let mut j: usize = 0;
        while j < output_node.nodes.len()
            invariant
                j <= output_node.nodes@.len(),
                output@ == self.output_view(),
                self.output_name == old(self).output_name,
                self.workspaces@.len() == WORKSPACE_COUNT,
                icon_loader.wf(),
                app_ids == icon_loader.app_ids(),
                selected_output(*tree, self.output_view()) == Some(*output_node),
                indices_fit(*output_node, output@),
                all_cached(
                    workspace_queries(*output_node, output@, output_node.nodes@.len() as int),
                    app_ids,
                ),
                self.workspaces_view() == apply_workspace_nodes(
                    empty_workspaces(),
                    *output_node,
                    j as int,
                    output@,
                    app_ids,
                ),
            decreases output_node.nodes@.len() - j,
        {
            let workspace_node = &output_node.nodes[j];
            // Extract workspace index from its name.
            match node_workspace_index_of(workspace_node, &output) {
                Some(ws_index) => {
                    assert(ws_index < WORKSPACE_COUNT) by {
                        assert(match node_workspace_index(output_node.nodes@[j as int], output@) {
                            Some(index) => index < WORKSPACE_COUNT,
                            None => true,
                        });
                    }
                    proof {
                        lemma_workspace_child_cached(*output_node, output@, j as int, app_ids);
                    }
                    // Update workspace focus.
                    let focused = opt_string_eq(&workspace_node.name, &output_node.current_workspace);
                    // Update workspace icon.
                    let icon = match workspace_icon(icon_loader, workspace_node) {
                        Some((_, icon)) => icon,
                        None => Icon::Empty,
                    };
                    let ghost before = self.workspaces_view();
                    self.workspaces.set(ws_index, Workspace { icon, focused });
                    assert(self.workspaces_view() =~= apply_workspace_nodes(
                        empty_workspaces(),
                        *output_node,
                        j + 1,
                        output@,
                        app_ids,
                    ));
                },
                None => {},
            }
            j += 1;
        }
    }
}

/// A subtree has a workspace icon exactly when it holds an application; the
/// icon belongs to one of its applications and is that application's icon.
pub proof fn lemma_node_icon_found(node: Node, app_ids: Map<Seq<char>, Option<Seq<u8>>>)
    ensures
        node_icon(node, app_ids) is Some <==> node_queries(node).len() > 0,
        node_icon(node, app_ids) matches Some((app_id, icon)) ==> node_queries(node).contains(
            app_id,
        ) && icon == app_icon(app_ids, app_id),
    decreases node, node.nodes@.len() + 1,
{
    if !is_app(node) {
        lemma_children_icon_found(node, node.nodes@.len() as int, app_ids);
    } else {
        assert(node_queries(node)[0] == node.app_id.unwrap()@);
    }
}

/// `lemma_node_icon_found` for the first `k` children of a node.
pub proof fn lemma_children_icon_found(
    node: Node,
    k: int,
    app_ids: Map<Seq<char>, Option<Seq<u8>>>,
)
    ensures
        children_icon(node, k, app_ids) is Some <==> children_queries(node, k).len() > 0,
        children_icon(node, k, app_ids) matches Some((app_id, icon)) ==> children_queries(
            node,
            k,
        ).contains(app_id) && icon == app_icon(app_ids, app_id),
    decreases node, k,
{
    if 0 < k <= node.nodes@.len() {
        let child = node.nodes@[k - 1];
        lemma_children_icon_found(node, k - 1, app_ids);
        lemma_node_icon_found(child, app_ids);
        let prev = children_queries(node, k - 1);
        let q = node_queries(child);
        let all = children_queries(node, k);
        assert(all == prev + q);
        if let Some((app_id, icon)) = children_icon(node, k, app_ids) {
            if children_icon(node, k - 1, app_ids) == Some((app_id, icon)) && prev.contains(app_id) {
                let i = choose|i: int| 0 <= i < prev.len() && prev[i] == app_id;
                assert(all[i] == app_id);
            } else {
                let i = choose|i: int| 0 <= i < q.len() && q[i] == app_id;
                assert(all[prev.len() + i] == app_id);
            }
        }
    }
}

/// The priority list wins: where a subtree holds a `firefox` application whose
/// icon file was found, the workspace icon is that `firefox` icon.
pub proof fn lemma_node_icon_prefers_firefox(
    node: Node,
    app_ids: Map<Seq<char>, Option<Seq<u8>>>,
    path: Seq<u8>,
)
    requires
        node_queries(node).contains("firefox"@),
        app_ids["firefox"@] == Some(path),
    ensures
        node_icon(node, app_ids) == Some(("firefox"@, IconView::Path(path))),
    decreases node, node.nodes@.len() + 1,
{
    if !is_app(node) {
        lemma_children_icon_prefers_firefox(node, node.nodes@.len() as int, app_ids, path);
    } else {
        assert(node_queries(node)[0] == node.app_id.unwrap()@);
    }
}

/// `lemma_node_icon_prefers_firefox` for the first `k` children of a node.
pub proof fn lemma_children_icon_prefers_firefox(
    node: Node,
    k: int,
    app_ids: Map<Seq<char>, Option<Seq<u8>>>,
    path: Seq<u8>,
)
    requires
        children_queries(node, k).contains("firefox"@),
        app_ids["firefox"@] == Some(path),
    ensures
        children_icon(node, k, app_ids) == Some(("firefox"@, IconView::Path(path))),
    decreases node, k,
{
    if 0 < k <= node.nodes@.len() {
        let child = node.nodes@[k - 1];
        let prev = children_queries(node, k - 1);
        let q = node_queries(child);
        let all = children_queries(node, k);
        assert(all == prev + q);
        let i = choose|i: int| 0 <= i < all.len() && all[i] == "firefox"@;
        lemma_children_icon_found(node, k - 1, app_ids);
        lemma_node_icon_found(child, app_ids);
        if i < prev.len() {
            assert(prev[i] == "firefox"@);
            lemma_children_icon_prefers_firefox(node, k - 1, app_ids, path);
        } else {
            assert(q[i - prev.len()] == "firefox"@);
            lemma_node_icon_prefers_firefox(child, app_ids, path);
        }
    }
}

/// No application of the subtree has a found icon file.
pub open spec fn no_icon_found(queries: Seq<Seq<char>>, app_ids: Map<Seq<char>, Option<Seq<u8>>>) -> bool {
    forall|i: int| 0 <= i < queries.len() ==> app_ids[#[trigger] queries[i]] is None
}

/// A found icon file ranks above the full-workspace icon: the search ends
/// with a built-in icon only when no application of the subtree has a found
/// icon file.
pub proof fn lemma_node_icon_builtin(node: Node, app_ids: Map<Seq<char>, Option<Seq<u8>>>)
    ensures
        node_icon(node, app_ids) matches Some((_, icon)) && is_builtin(icon) ==> no_icon_found(
            node_queries(node),
            app_ids,
        ),
    decreases node, node.nodes@.len() + 1,
{
    if !is_app(node) {
        lemma_children_icon_builtin(node, node.nodes@.len() as int, app_ids);
    } else {
        assert(node_queries(node)[0] == node.app_id.unwrap()@);
    }
}

/// `lemma_node_icon_builtin` for the first `k` children of a node.
pub proof fn lemma_children_icon_builtin(
    node: Node,
    k: int,
    app_ids: Map<Seq<char>, Option<Seq<u8>>>,
)
    ensures
        children_icon(node, k, app_ids) matches Some((_, icon)) && is_builtin(icon)
            ==> no_icon_found(children_queries(node, k), app_ids),
    decreases node, k,
{
    if 0 < k <= node.nodes@.len() {
        let child = node.nodes@[k - 1];
        lemma_children_icon_builtin(node, k - 1, app_ids);
        lemma_node_icon_builtin(child, app_ids);
        lemma_children_icon_found(node, k - 1, app_ids);
        lemma_node_icon_found(child, app_ids);
        let prev = children_queries(node, k - 1);
        let q = node_queries(child);
        let all = children_queries(node, k);
        assert(all == prev + q);
        if let Some((_, icon)) = children_icon(node, k, app_ids) {
            if is_builtin(icon) {
                assert forall|i: int| 0 <= i < all.len() implies app_ids[#[trigger] all[i]] is None by {
                    if i < prev.len() {
                        assert(all[i] == prev[i]);
                    } else {
                        assert(all[i] == q[i - prev.len()]);
                    }
                }
            }
        }
    }
}

/// Whether position `k` of `queries` is the first application with a found
/// icon file among those of best (lowest) priority with one.
pub open spec fn first_best_found(
    queries: Seq<Seq<char>>,
    app_ids: Map<Seq<char>, Option<Seq<u8>>>,
    k: int,
) -> bool {
    &&& 0 <= k < queries.len()
    &&& app_ids[queries[k]] is Some
    &&& forall|i: int|
        0 <= i < queries.len() && app_ids[#[trigger] queries[i]] is Some ==> icon_priority(
            queries[k],
        ) <= icon_priority(queries[i])
    &&& forall|i: int|
        0 <= i < k && app_ids[#[trigger] queries[i]] is Some ==> icon_priority(queries[k])
            < icon_priority(queries[i])
}

/// The workspace icon search: where applications of a subtree have found
/// icon files, the icon is that of the first of them, in depth-first tree
/// order, among those of best priority, whatever their `app_id`s.
pub proof fn lemma_node_icon_first_best(
    node: Node,
    app_ids: Map<Seq<char>, Option<Seq<u8>>>,
    k: int,
)
    requires
        first_best_found(node_queries(node), app_ids, k),
    ensures
        node_icon(node, app_ids) == Some(
            (
                node_queries(node)[k],
                IconView::Path(app_ids[node_queries(node)[k]].unwrap()),
            ),
        ),
    decreases node, node.nodes@.len() + 1,
{
    if !is_app(node) {
        lemma_children_icon_first_best(node, node.nodes@.len() as int, app_ids, k);
    } else {
        assert(node_queries(node)[0] == node.app_id.unwrap()@);
    }
}

/// `lemma_node_icon_first_best` for the first `m` children of a node.
pub proof fn lemma_children_icon_first_best(
    node: Node,
    m: int,
    app_ids: Map<Seq<char>, Option<Seq<u8>>>,
    k: int,
)
    requires
        first_best_found(children_queries(node, m), app_ids, k),
    ensures
        children_icon(node, m, app_ids) == Some(
            (
                children_queries(node, m)[k],
                IconView::Path(app_ids[children_queries(node, m)[k]].unwrap()),
            ),
        ),
    decreases node, m,
{
    let all = children_queries(node, m);
    assert(0 < m <= node.nodes@.len());
    let child = node.nodes@[m - 1];
    let prev = children_queries(node, m - 1);
    let q = node_queries(child);
    assert(all == prev + q);
    lemma_children_icon_found(node, m - 1, app_ids);
    lemma_node_icon_found(child, app_ids);
    let cur = children_icon(node, m - 1, app_ids);
    let nxt = node_icon(child, app_ids);
    if k < prev.len() {
        assert(all[k] == prev[k]);
        assert forall|i: int|
            0 <= i < prev.len() && app_ids[#[trigger] prev[i]] is Some implies icon_priority(
            prev[k],
        ) <= icon_priority(prev[i]) by {
            assert(all[i] == prev[i]);
        }
        assert forall|i: int|
            0 <= i < k && app_ids[#[trigger] prev[i]] is Some implies icon_priority(prev[k])
            < icon_priority(prev[i]) by {
            assert(all[i] == prev[i]);
        }
        lemma_children_icon_first_best(node, m - 1, app_ids, k);
        if let Some((app_id, icon)) = nxt {
            if !is_builtin(icon) {
                let j = choose|j: int| 0 <= j < q.len() && q[j] == app_id;
                assert(all[prev.len() + j] == app_id);
            }
        }
    } else {
        let k2 = k - prev.len();
        assert(all[k] == q[k2]);
        assert forall|i: int|
            0 <= i < q.len() && app_ids[#[trigger] q[i]] is Some implies icon_priority(q[k2])
            <= icon_priority(q[i]) by {
            assert(all[prev.len() + i] == q[i]);
        }
        assert forall|i: int|
            0 <= i < k2 && app_ids[#[trigger] q[i]] is Some implies icon_priority(q[k2])
            < icon_priority(q[i]) by {
            assert(all[prev.len() + i] == q[i]);
        }
        lemma_node_icon_first_best(child, app_ids, k2);
        if let Some((app_id, icon)) = cur {
            if !is_builtin(icon) {
                let j = choose|j: int| 0 <= j < prev.len() && prev[j] == app_id;
                assert(all[j] == app_id);
            }
        }
    }
}

/// The workspace that a workspace node stands for after an update, as the
/// updated focus and icon.
spec fn node_workspace_view(
    child: Node,
    output_node: Node,
    app_ids: Map<Seq<char>, Option<Seq<u8>>>,
) -> WorkspaceView {
    WorkspaceView {
        focused: opt_view(child.name) == opt_view(output_node.current_workspace),
        icon: match node_icon(child, app_ids) {
            Some((_, icon)) => icon,
            None => IconView::Empty,
        },
    }
}

/// A workspace node's index is not negative.
proof fn lemma_node_index_nonneg(node: Node, output: Seq<char>)
    ensures
        node_workspace_index(node, output) matches Some(index) ==> 0 <= index,
{
    if node.node_type == NodeType::Workspace {
        if let Some(name) = node.name {
            lemma_parse_unsigned_nonneg(name@.skip(output.len() + 1 as int), usize::MAX as int);
        }
    }
}

/// Applying the first `k` workspace nodes keeps the number of workspaces.
proof fn lemma_apply_len(
    ws: Seq<WorkspaceView>,
    output_node: Node,
    k: int,
    output: Seq<char>,
    app_ids: Map<Seq<char>, Option<Seq<u8>>>,
)
    requires
        ws.len() == WORKSPACE_COUNT,
        indices_fit(output_node, output),
        0 <= k <= output_node.nodes@.len(),
    ensures
        apply_workspace_nodes(ws, output_node, k, output, app_ids).len() == WORKSPACE_COUNT,
    decreases k,
{
    if k > 0 {
        lemma_apply_len(ws, output_node, k - 1, output, app_ids);
        let child = output_node.nodes@[k - 1];
        lemma_node_index_nonneg(child, output);
        assert(match node_workspace_index(child, output) {
            Some(index) => index < WORKSPACE_COUNT,
            None => true,
        });
    }
}

/// One more workspace node sets the workspace it numbers and leaves the
/// others as they were.
proof fn lemma_apply_step(
    ws: Seq<WorkspaceView>,
    output_node: Node,
    k: int,
    output: Seq<char>,
    app_ids: Map<Seq<char>, Option<Seq<u8>>>,
)
    requires
        ws.len() == WORKSPACE_COUNT,
        indices_fit(output_node, output),
        0 < k <= output_node.nodes@.len(),
    ensures
        ({
            let prev = apply_workspace_nodes(ws, output_node, k - 1, output, app_ids);
            let next = apply_workspace_nodes(ws, output_node, k, output, app_ids);
            let child = output_node.nodes@[k - 1];
            &&& prev.len() == WORKSPACE_COUNT
            &&& next.len() == WORKSPACE_COUNT
            &&& forall|i: int|
                0 <= i < WORKSPACE_COUNT ==> #[trigger] next[i] == if node_workspace_index(
                    child,
                    output,
                ) == Some(i) {
                    node_workspace_view(child, output_node, app_ids)
                } else {
                    prev[i]
                }
        }),
{
    let prev = apply_workspace_nodes(ws, output_node, k - 1, output, app_ids);
    let child = output_node.nodes@[k - 1];
    lemma_apply_len(ws, output_node, k - 1, output, app_ids);
    lemma_apply_len(ws, output_node, k, output, app_ids);
    lemma_node_index_nonneg(child, output);
    assert(match node_workspace_index(child, output) {
        Some(index) => index < WORKSPACE_COUNT,
        None => true,
    });
}

/// Applying the first `k` workspace nodes leaves a workspace that none of
/// them numbers as it was.
proof fn lemma_apply_untouched(
    ws: Seq<WorkspaceView>,
    output_node: Node,
    k: int,
    output: Seq<char>,
    app_ids: Map<Seq<char>, Option<Seq<u8>>>,
    i: int,
)
    requires
        ws.len() == WORKSPACE_COUNT,
        indices_fit(output_node, output),
        0 <= i < WORKSPACE_COUNT,
        0 <= k <= output_node.nodes@.len(),
        forall|l: int|
            0 <= l < k ==> node_workspace_index(#[trigger] output_node.nodes@[l], output) != Some(
                i,
            ),
    ensures
        apply_workspace_nodes(ws, output_node, k, output, app_ids)[i] == ws[i],
    decreases k,
{
    if k > 0 {
        lemma_apply_untouched(ws, output_node, k - 1, output, app_ids, i);
        lemma_apply_len(ws, output_node, k - 1, output, app_ids);
        let child = output_node.nodes@[k - 1];
        lemma_apply_step(ws, output_node, k, output, app_ids);
        assert(node_workspace_index(child, output) != Some(i));
    }
}

/// Applying the first `k` workspace nodes gives a workspace the value of the
/// last of them that numbers it.
proof fn lemma_apply_last(
    ws: Seq<WorkspaceView>,
    output_node: Node,
    k: int,
    output: Seq<char>,
    app_ids: Map<Seq<char>, Option<Seq<u8>>>,
    j: int,
)
    requires
        ws.len() == WORKSPACE_COUNT,
        indices_fit(output_node, output),
        0 <= j < k <= output_node.nodes@.len(),
        node_workspace_index(output_node.nodes@[j], output) is Some,
        forall|l: int|
            j < l < k ==> node_workspace_index(#[trigger] output_node.nodes@[l], output)
                != node_workspace_index(output_node.nodes@[j], output),
    ensures
        apply_workspace_nodes(ws, output_node, k, output, app_ids)[node_workspace_index(
            output_node.nodes@[j],
            output,
        ).unwrap()] == node_workspace_view(output_node.nodes@[j], output_node, app_ids),
    decreases k,
{
    let i = node_workspace_index(output_node.nodes@[j], output).unwrap();
    lemma_node_index_nonneg(output_node.nodes@[j], output);
    assert(match node_workspace_index(output_node.nodes@[j], output) {
        Some(index) => index < WORKSPACE_COUNT,
        None => true,
    });
    lemma_apply_len(ws, output_node, k - 1, output, app_ids);
    lemma_apply_step(ws, output_node, k, output, app_ids);
    if k - 1 > j {
        lemma_apply_last(ws, output_node, k - 1, output, app_ids, j);
        let child = output_node.nodes@[k - 1];
        assert(node_workspace_index(child, output) != Some(i));
    }
}

/// After an update from a root tree, each workspace shows what the last
/// workspace node of the output numbering it holds: the empty icon exactly
/// when that node holds no application, the full-workspace icon when it holds
/// applications but none with a found icon file, else the icon file of one of
/// its applications; it is focused exactly when that node is the output's
/// current workspace.
pub proof fn lemma_updated_workspace_icon(
    old: Seq<WorkspaceView>,
    tree: Node,
    output: Seq<char>,
    app_ids: Map<Seq<char>, Option<Seq<u8>>>,
    j: int,
)
    requires
        tree.node_type == NodeType::Root,
        selected_output(tree, output) is Some,
        indices_fit(selected_output(tree, output).unwrap(), output),
        0 <= j < selected_output(tree, output).unwrap().nodes@.len(),
        node_workspace_index(selected_output(tree, output).unwrap().nodes@[j], output) is Some,
        forall|l: int|
            j < l < selected_output(tree, output).unwrap().nodes@.len() ==> node_workspace_index(
                #[trigger] selected_output(tree, output).unwrap().nodes@[l],
                output,
            ) != node_workspace_index(selected_output(tree, output).unwrap().nodes@[j], output),
    ensures
        ({
            let o = selected_output(tree, output).unwrap();
            let w = o.nodes@[j];
            let r = updated_workspaces(old, tree, output, app_ids)[node_workspace_index(
                w,
                output,
            ).unwrap()];
            &&& (r.icon == IconView::Empty) == (node_queries(w).len() == 0)
            &&& node_queries(w).len() > 0 && no_icon_found(node_queries(w), app_ids) ==> r.icon
                == IconView::Full
            &&& !no_icon_found(node_queries(w), app_ids) ==> (exists|a: int|
                0 <= a < node_queries(w).len() && app_ids[#[trigger] node_queries(w)[a]] is Some
                    && r.icon == IconView::Path(app_ids[node_queries(w)[a]].unwrap()))
            &&& r.focused == (opt_view(w.name) == opt_view(o.current_workspace))
        }),
{
    let o = selected_output(tree, output).unwrap();
    let w = o.nodes@[j];
    let i = node_workspace_index(w, output).unwrap();
    assert(match node_workspace_index(o.nodes@[j], output) {
        Some(index) => index < WORKSPACE_COUNT,
        None => true,
    });
    lemma_apply_last(empty_workspaces(), o, o.nodes@.len() as int, output, app_ids, j);
    lemma_node_icon_found(w, app_ids);
    lemma_node_icon_builtin(w, app_ids);
    if let Some((app_id, icon)) = node_icon(w, app_ids) {
        let a = choose|a: int| 0 <= a < node_queries(w).len() && node_queries(w)[a] == app_id;
        if no_icon_found(node_queries(w), app_ids) {
            assert(app_ids[node_queries(w)[a]] is None);
        } else if !is_builtin(icon) {
            assert(app_ids[node_queries(w)[a]] is Some);
        }
    }
}

/// After an update from a root tree with the output's node, a workspace that
/// no workspace node of the output numbers is empty and unfocused.
pub proof fn lemma_updated_workspace_unnumbered(
    old: Seq<WorkspaceView>,
    tree: Node,
    output: Seq<char>,
    app_ids: Map<Seq<char>, Option<Seq<u8>>>,
    i: int,
)
    requires
        tree.node_type == NodeType::Root,
        tree_fits(tree, output),
        0 <= i < WORKSPACE_COUNT,
        forall|l: int|
            selected_output(tree, output) is Some && 0 <= l < selected_output(
                tree,
                output,
            ).unwrap().nodes@.len() ==> node_workspace_index(
                #[trigger] selected_output(tree, output).unwrap().nodes@[l],
                output,
            ) != Some(i),
    ensures
        updated_workspaces(old, tree, output, app_ids)[i] == empty_workspace(),
{
    if let Some(o) = selected_output(tree, output) {
        lemma_apply_untouched(empty_workspaces(), o, o.nodes@.len() as int, output, app_ids, i);
    }
}

/// A workspace named after the output, `-` and a number `n` is workspace `n`.
pub proof fn lemma_workspace_index_of_name(output: Seq<char>, n: nat)
    requires
        n <= usize::MAX,
    ensures
        workspace_index(output + seq!['-'] + decimal(n), output) == Some(n as int),
{
    let name = output + seq!['-'] + decimal(n);
    assert(name.take(output.len() as int) =~= output);
    assert(name[output.len() as int] == '-');
    assert(name.skip(output.len() + 1 as int) =~= decimal(n));
    lemma_parse_decimal(n, usize::MAX as int);
    lemma_decimal_len(n);
}

} // verus!
