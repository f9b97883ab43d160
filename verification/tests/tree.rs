use stele_undead::image_type::ImageType;
use stele_undead::tree::{icon_queries, workspace_icon, Icon, Node, NodeType, WorkspaceState};
use stele_undead::xdg::IconLoader;

fn node(node_type: NodeType, name: Option<&str>, app_id: Option<&str>, nodes: Vec<Node>) -> Node {
    Node {
        node_type,
        name: name.map(String::from),
        app_id: app_id.map(String::from),
        current_workspace: None,
        nodes,
    }
}

fn app(app_id: &str) -> Node {
    node(NodeType::Con, None, Some(app_id), Vec::new())
}

fn loader_with(found: &[(&str, Option<&str>)]) -> IconLoader {
    let mut loader = IconLoader::with_dirs(Vec::new(), Vec::new());
    let theme = "t".to_string();
    for (app_id, icon) in found {
        if let Some(icon) = icon {
            loader.offer_themed_icon(app_id.to_string(), &theme, ImageType::Scalable, icon.as_bytes().to_vec());
        }
        let name = icon.map(|_| app_id.to_string());
        loader.icon_path(&app_id.to_string(), name);
    }
    loader
}

fn tree(output: Node) -> Node {
    node(NodeType::Root, Some("root"), None, vec![
        node(NodeType::Output, Some("__i3"), None, Vec::new()),
        output,
    ])
}

#[test]
fn icon_prefers_firefox() {
    let loader = loader_with(&[("foot", Some("/foot.svg")), ("firefox", Some("/firefox.svg"))]);
    let ws = node(NodeType::Workspace, Some("eDP-1-0"), None, vec![
        app("foot"),
        node(NodeType::Con, None, None, vec![app("firefox")]),
    ]);
    assert_eq!(workspace_icon(&loader, &ws), Some(("firefox".into(), Icon::Path(b"/firefox.svg".to_vec()))));
}

#[test]
fn icon_earliest_app_wins() {
    let loader = loader_with(&[("foot", Some("/foot.svg")), ("mpv", Some("/mpv.svg"))]);
    let ws = node(NodeType::Workspace, Some("eDP-1-0"), None, vec![app("foot"), app("mpv")]);
    assert_eq!(workspace_icon(&loader, &ws), Some(("foot".into(), Icon::Path(b"/foot.svg".to_vec()))));
}

#[test]
fn builtin_icon_is_replaced() {
    let loader = loader_with(&[("unknown", None), ("mpv", Some("/mpv.svg"))]);
    let ws = node(NodeType::Workspace, Some("eDP-1-0"), None, vec![app("unknown"), app("mpv")]);
    assert_eq!(workspace_icon(&loader, &ws), Some(("mpv".into(), Icon::Path(b"/mpv.svg".to_vec()))));
    let ws = node(NodeType::Workspace, Some("eDP-1-0"), None, vec![app("unknown")]);
    assert_eq!(workspace_icon(&loader, &ws), Some(("unknown".into(), Icon::Full)));
    let empty = node(NodeType::Workspace, Some("eDP-1-0"), None, Vec::new());
    assert_eq!(workspace_icon(&loader, &empty), None);
}

#[test]
fn firefox_without_icon_keeps_found_icon() {
    let loader = loader_with(&[("foot", Some("/foot.svg")), ("firefox", None)]);
    let ws = node(NodeType::Workspace, Some("eDP-1-0"), None, vec![app("foot"), app("firefox")]);
    assert_eq!(workspace_icon(&loader, &ws), Some(("foot".into(), Icon::Path(b"/foot.svg".to_vec()))));
}

#[test]
fn queries_in_search_order() {
    let ws = node(NodeType::Workspace, Some("eDP-1-0"), None, vec![
        app("a"),
        node(NodeType::Con, None, None, vec![app("b"), app("c")]),
    ]);
    let mut out = Vec::new();
    icon_queries(&ws, &mut out);
    assert_eq!(out, vec!["a".to_string(), "b".to_string(), "c".to_string()]);
}

#[test]
fn update_sets_focus_and_icons() {
    let mut output = node(NodeType::Output, Some("eDP-1"), None, vec![
        node(NodeType::Workspace, Some("eDP-1-0"), None, vec![app("foot")]),
        node(NodeType::Workspace, Some("eDP-1-3"), None, Vec::new()),
        node(NodeType::Workspace, Some("other-1"), None, vec![app("mpv")]),
        node(NodeType::Workspace, Some("eDP-1-x"), None, vec![app("mpv")]),
        node(NodeType::Con, Some("eDP-1-1"), None, vec![app("mpv")]),
    ]);
    output.current_workspace = Some("eDP-1-3".to_string());
    let tree = tree(output);
    let mut state = WorkspaceState::new("eDP-1".to_string());
    assert!(state.fits(&tree));
    assert_eq!(state.icon_queries(&tree), vec!["foot".to_string()]);
    let loader = loader_with(&[("foot", Some("/foot.svg"))]);
    state.update_workspaces(&tree, &loader);
    let ws = state.workspaces();
    assert_eq!(ws.len(), 5);
    assert_eq!(ws[0].icon, Icon::Path(b"/foot.svg".to_vec()));
    assert!(!ws[0].focused);
    assert_eq!(ws[3].icon, Icon::Empty);
    assert!(ws[3].focused);
    for i in [1, 2, 4] {
        assert_eq!(ws[i].icon, Icon::Empty);
        assert!(!ws[i].focused);
    }
}

#[test]
fn non_root_tree_changes_nothing() {
    let mut output = node(NodeType::Output, Some("eDP-1"), None, vec![
        node(NodeType::Workspace, Some("eDP-1-2"), None, Vec::new()),
    ]);
    output.current_workspace = Some("eDP-1-2".to_string());
    let loader = loader_with(&[]);
    let mut state = WorkspaceState::new("eDP-1".to_string());
    state.update_workspaces(&tree(output), &loader);
    assert!(state.workspaces()[2].focused);
    let not_root = node(NodeType::Output, Some("eDP-1"), None, Vec::new());
    state.update_workspaces(&not_root, &loader);
    assert!(state.workspaces()[2].focused);
}

#[test]
fn missing_output_resets_workspaces() {
    let mut output = node(NodeType::Output, Some("eDP-1"), None, vec![
        node(NodeType::Workspace, Some("eDP-1-2"), None, Vec::new()),
    ]);
    output.current_workspace = Some("eDP-1-2".to_string());
    let loader = loader_with(&[]);
    let mut state = WorkspaceState::new("eDP-1".to_string());
    state.update_workspaces(&tree(output), &loader);
    assert!(state.workspaces()[2].focused);
    let other = tree(node(NodeType::Output, Some("HDMI-1"), None, Vec::new()));
    state.update_workspaces(&other, &loader);
    assert!(!state.workspaces()[2].focused);
}

#[test]
fn index_out_of_range_does_not_fit() {
    let output = node(NodeType::Output, Some("eDP-1"), None, vec![
        node(NodeType::Workspace, Some("eDP-1-7"), None, Vec::new()),
    ]);
    let state = WorkspaceState::new("eDP-1".to_string());
    assert!(!state.fits(&tree(output)));
    let fine = node(NodeType::Output, Some("eDP-1"), None, vec![
        node(NodeType::Workspace, Some("eDP-1-+4"), None, Vec::new()),
    ]);
    assert!(state.fits(&tree(fine)));
}

#[test]
fn output_node_presence() {
    let state = WorkspaceState::new("eDP-1".to_string());
    let output = node(NodeType::Output, Some("eDP-1"), None, Vec::new());
    assert!(state.has_output(&tree(output)));
    let other = node(NodeType::Output, Some("HDMI-1"), None, Vec::new());
    assert!(!state.has_output(&tree(other)));
    // A workspace named like the output is no output node.
    let ws = node(NodeType::Workspace, Some("eDP-1"), None, Vec::new());
    assert!(!state.has_output(&tree(ws)));
    let not_root = node(NodeType::Output, Some("eDP-1"), None, Vec::new());
    assert!(!state.has_output(&not_root));
}
