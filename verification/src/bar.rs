//! The bar's layout: which modules it shows, with which layers, in which
//! order. The caller turns these descriptions into `stele` modules.

use vstd::prelude::*;
use crate::text::{decimal, decimal_chars, string_of, to_chars};
use crate::tree::{Icon, IconView, Workspace, WorkspaceView};

verus! {

broadcast use vstd::string::group_string_axioms;

/// Bar size, and the size of the corner SVGs.
pub const BAR_SIZE: u32 = 35;

/// Workspace icon size.
pub const ICON_SIZE: u32 = 24;

/// Where a module sits on the bar.
#[derive(Clone, Copy, PartialEq, Eq, Structural, Debug)]
pub enum Alignment {
    Start,
    Center,
    End,
}

/// The bar's built-in SVG layers.
#[derive(Clone, Copy, PartialEq, Eq, Structural, Debug)]
pub enum SvgAsset {
    Bg,
    BgAlt,
    BgHover,
    WsEmpty,
    WsFull,
    BgCornerLeft,
    BgCornerRight,
}

/// The content ID of a built-in SVG layer. IDs count down from `u32::MAX` to
/// avoid conflicts with auto-generated IDs.
pub open spec fn svg_id(asset: SvgAsset) -> u32 {
    match asset {
        SvgAsset::Bg => 0xffffffff,
        SvgAsset::BgAlt => 0xfffffffe,
        SvgAsset::BgHover => 0xfffffffd,
        SvgAsset::WsEmpty => 0xfffffffc,
        SvgAsset::WsFull => 0xfffffffb,
        SvgAsset::BgCornerLeft => 0xfffffffa,
        SvgAsset::BgCornerRight => 0xfffffff9,
    }
}

impl SvgAsset {
    /// The content ID of this layer.
    pub fn id(&self) -> (r: u32)
        ensures
            r == svg_id(*self),
    {
        match self {
            SvgAsset::Bg => 0xffffffff,
            SvgAsset::BgAlt => 0xfffffffe,
            SvgAsset::BgHover => 0xfffffffd,
            SvgAsset::WsEmpty => 0xfffffffc,
            SvgAsset::WsFull => 0xfffffffb,
            SvgAsset::BgCornerLeft => 0xfffffffa,
            SvgAsset::BgCornerRight => 0xfffffff9,
        }
    }
}

/// What a layer shows.
#[derive(Debug, PartialEq, Eq)]
pub enum Content {
    Svg(SvgAsset),
    Color(u8, u8, u8),
    Text(String),
    Image(Vec<u8>),
}

/// The value of a [`Content`].
pub enum ContentView {
    Svg(SvgAsset),
    Color(u8, u8, u8),
    Text(Seq<char>),
    Image(Seq<u8>),
}

impl DeepView for Content {
    type V = ContentView;

    open spec fn deep_view(&self) -> ContentView {
        match self {
            Content::Svg(a) => ContentView::Svg(*a),
            Content::Color(r, g, b) => ContentView::Color(*r, *g, *b),
            Content::Text(t) => ContentView::Text(t@),
            Content::Image(p) => ContentView::Image(p@),
        }
    }
}

/// A module layer: its content and the size and margins set on it (`None`
/// keeps the layer's default).
#[derive(Debug, PartialEq, Eq)]
pub struct Layer {
    pub content: Content,
    pub width: Option<u32>,
    pub height: Option<u32>,
    /// Margins as given to `Margin::new`.
    pub margin: Option<(u32, u32, u32, u32)>,
    pub margin_bottom: Option<u32>,
}

/// The value of a [`Layer`].
pub struct LayerView {
    pub content: ContentView,
    pub width: Option<u32>,
    pub height: Option<u32>,
    pub margin: Option<(u32, u32, u32, u32)>,
    pub margin_bottom: Option<u32>,
}

impl DeepView for Layer {
    type V = LayerView;

    open spec fn deep_view(&self) -> LayerView {
        LayerView {
            content: self.content.deep_view(),
            width: self.width,
            height: self.height,
            margin: self.margin,
            margin_bottom: self.margin_bottom,
        }
    }
}

/// A bar module: its ID, alignment, layers and (where set) index.
#[derive(Debug, PartialEq, Eq)]
pub struct BarModule {
    pub id: String,
    pub alignment: Alignment,
    pub layers: Vec<Layer>,
    pub index: Option<u8>,
}

/// The value of a [`BarModule`].
pub struct ModuleView {
    pub id: Seq<char>,
    pub alignment: Alignment,
    pub layers: Seq<LayerView>,
    pub index: Option<u8>,
}

impl DeepView for BarModule {
    type V = ModuleView;

    open spec fn deep_view(&self) -> ModuleView {
        ModuleView {
            id: self.id@,
            alignment: self.alignment,
            layers: self.layers@.map_values(|l: Layer| l.deep_view()),
            index: self.index,
        }
    }
}

/// The views of a list of modules.
pub open spec fn module_views(v: Seq<BarModule>) -> Seq<ModuleView> {
    v.map_values(|m: BarModule| m.deep_view())
}

/// A layer with nothing set but its content.
pub open spec fn plain_layer(content: ContentView) -> LayerView {
    LayerView { content, width: None, height: None, margin: None, margin_bottom: None }
}

fn plain(content: Content) -> (r: Layer)
    ensures
        r.deep_view() == plain_layer(content.deep_view()),
{
    Layer { content, width: None, height: None, margin: None, margin_bottom: None }
}

/// The module for SVG corner borders: the left or right corner SVG at 35x35.
pub open spec fn corner_view(id: Seq<char>, alignment: Alignment, left: bool, index: Option<u8>) -> ModuleView {
    let svg = if left {
        SvgAsset::BgCornerLeft
    } else {
        SvgAsset::BgCornerRight
    };
    ModuleView {
        id,
        alignment,
        layers: seq![
            LayerView {
                width: Some(BAR_SIZE),
                height: Some(BAR_SIZE),
                ..plain_layer(ContentView::Svg(svg))
            },
        ],
        index,
    }
}

/// A module without layers, which removes a module of that ID.
pub open spec fn empty_view(id: Seq<char>, alignment: Alignment) -> ModuleView {
    ModuleView { id, alignment, layers: Seq::empty(), index: None }
}

/// Get module for SVG corner borders.
pub fn corner_module(id: &str, alignment: Alignment, left: bool) -> (r: BarModule)
    ensures
        r.deep_view() == corner_view(id@, alignment, left, None),
{
    let svg = if left {
        SvgAsset::BgCornerLeft
    } else {
        SvgAsset::BgCornerRight
    };
    let mut corner = plain(Content::Svg(svg));
    corner.width = Some(BAR_SIZE);
    corner.height = Some(BAR_SIZE);
    let mut layers: Vec<Layer> = Vec::new();
    layers.push(corner);
    let r = BarModule { id: id.to_owned(), alignment, layers, index: None };
    assert(r.deep_view().layers =~= corner_view(id@, alignment, left, None).layers);
    r
}

/// A corner module with its index set.
fn indexed_corner(id: &str, alignment: Alignment, left: bool, index: u8) -> (r: BarModule)
    ensures
        r.deep_view() == corner_view(id@, alignment, left, Some(index)),
{
    let mut corner = corner_module(id, alignment, left);
    corner.index = Some(index);
    corner
}

/// A module without layers.
fn empty_module(id: &str, alignment: Alignment) -> (r: BarModule)
    ensures
        r.deep_view() == empty_view(id@, alignment),
{
    let r = BarModule { id: id.to_owned(), alignment, layers: Vec::new(), index: None };
    assert(r.deep_view().layers =~= Seq::<LayerView>::empty());
    r
}

/// Global bar configuration: the output, the bar size, the backgrounds (where
/// set), and the module updates to apply, in order.
#[derive(Debug, PartialEq, Eq)]
pub struct BarConfig {
    pub output: String,
    pub size: u32,
    pub backgrounds: Option<Vec<SvgAsset>>,
    pub modules: Vec<BarModule>,
}

/// The module updates of the bar configuration: with an empty workspace,
/// corners around the start, center and end modules and no `bg` module;
/// otherwise no corners.
pub open spec fn config_modules(workspace_empty: bool) -> Seq<ModuleView> {
    if workspace_empty {
        seq![
            corner_view("start_corner"@, Alignment::Start, false, Some(255u8)),
            corner_view("center_corner_left"@, Alignment::Center, true, Some(0u8)),
            corner_view("center_corner_right"@, Alignment::Center, false, Some(255u8)),
            corner_view("end_corner"@, Alignment::End, true, Some(0u8)),
            empty_view("bg"@, Alignment::Start),
        ]
    } else {
        seq![
            empty_view("start_corner"@, Alignment::Start),
            empty_view("center_corner_left"@, Alignment::Center),
            empty_view("center_corner_right"@, Alignment::Center),
            empty_view("end_corner"@, Alignment::End),
        ]
    }
}

/// Global bar configuration.
pub fn config(output_name: String, workspace_empty: bool) -> (r: BarConfig)
    ensures
        r.output@ == output_name@,
        r.size == BAR_SIZE,
        r.backgrounds matches Some(b) ==> !workspace_empty && b@ == seq![SvgAsset::Bg],
        r.backgrounds is None <==> workspace_empty,
        module_views(r.modules@) == config_modules(workspace_empty),
{
    let mut modules: Vec<BarModule> = Vec::new();
    let backgrounds = if workspace_empty {
        // Add corner for left modules.
        modules.push(indexed_corner("start_corner", Alignment::Start, false, 255));
        // Add corners for center modules.
        modules.push(indexed_corner("center_corner_left", Alignment::Center, true, 0));
        modules.push(indexed_corner("center_corner_right", Alignment::Center, false, 255));
        // Add corner for right modules.
        modules.push(indexed_corner("end_corner", Alignment::End, true, 0));
        // Remove background.
        modules.push(empty_module("bg", Alignment::Start));
        None
    } else {
        // Remove all corners.
        modules.push(empty_module("start_corner", Alignment::Start));
        modules.push(empty_module("center_corner_left", Alignment::Center));
        modules.push(empty_module("center_corner_right", Alignment::Center));
        modules.push(empty_module("end_corner", Alignment::End));
        // Add contiguous background.
        let mut backgrounds: Vec<SvgAsset> = Vec::new();
        backgrounds.push(SvgAsset::Bg);
        assert(backgrounds@ =~= seq![SvgAsset::Bg]);
        Some(backgrounds)
    };
    assert(module_views(modules@) =~= config_modules(workspace_empty));
    BarConfig { output: output_name, size: BAR_SIZE, backgrounds, modules }
}

/// The content of a workspace icon.
pub open spec fn icon_content(icon: IconView) -> ContentView {
    match icon {
        IconView::Empty => ContentView::Svg(SvgAsset::WsEmpty),
        IconView::Full => ContentView::Svg(SvgAsset::WsFull),
        IconView::Path(p) => ContentView::Image(p),
    }
}

/// The ID of the module of workspace `i`: `ws_{i}`.
pub open spec fn workspace_module_id(i: nat) -> Seq<char> {
    "ws_"@ + decimal(i)
}

/// The module of workspace `i`: the (focused or plain) background 35 wide,
/// then the icon at 24x24 with a bottom margin of 3.
pub open spec fn workspace_module(i: nat, ws: WorkspaceView) -> ModuleView {
    let bg = if ws.focused {
        SvgAsset::BgAlt
    } else {
        SvgAsset::Bg
    };
    ModuleView {
        id: workspace_module_id(i),
        alignment: Alignment::Center,
        layers: seq![
            LayerView { width: Some(BAR_SIZE), ..plain_layer(ContentView::Svg(bg)) },
            LayerView {
                width: Some(ICON_SIZE),
                height: Some(ICON_SIZE),
                margin_bottom: Some(3),
                ..plain_layer(icon_content(ws.icon))
            },
        ],
        index: Some((1 + i) as u8),
    }
}

/// The workspace modules: the left corner, one module per workspace, the
/// right corner.
pub open spec fn workspace_modules_view(workspaces: Seq<WorkspaceView>) -> Seq<ModuleView> {
    seq![corner_view("ws_corner_left"@, Alignment::Center, true, Some(0u8))] + Seq::new(
        workspaces.len(),
        |i: int| workspace_module(i as nat, workspaces[i]),
    ) + seq![corner_view("ws_corner_right"@, Alignment::Center, false, Some(255u8))]
}

/// The content of a workspace's icon layer.
fn icon_layer_content(icon: &Icon) -> (r: Content)
    ensures
        r.deep_view() == icon_content(icon.deep_view()),
{
    match icon {
        Icon::Empty => Content::Svg(SvgAsset::WsEmpty),
        Icon::Full => Content::Svg(SvgAsset::WsFull),
        Icon::Path(p) => {
            let c = p.clone();
            assert(c@ =~= p@);
            Content::Image(c)
        },
    }
}

/// The Sway workspace modules, for each workspace in order.
pub fn workspace_modules(workspaces: &Vec<Workspace>) -> (r: Vec<BarModule>)
    requires
        workspaces@.len() <= 255,
    ensures
        module_views(r@) == workspace_modules_view(
            workspaces@.map_values(|w: Workspace| w.deep_view()),
        ),
{
    let ghost ws = workspaces@.map_values(|w: Workspace| w.deep_view());
    let mut modules: Vec<BarModule> = Vec::new();
    // Add left corner SVG module.
    modules.push(indexed_corner("ws_corner_left", Alignment::Center, true, 0));
    let prefix = to_chars("ws_");
    // Add module for each workspace.
    let mut i: usize = 0;
    while i < workspaces.len()
        invariant
            i <= workspaces@.len() <= 255,
            ws == workspaces@.map_values(|w: Workspace| w.deep_view()),
            prefix@ == "ws_"@,
            module_views(modules@) == seq![
                corner_view("ws_corner_left"@, Alignment::Center, true, Some(0u8)),
            ] + Seq::new(i as nat, |k: int| workspace_module(k as nat, ws[k])),
        decreases workspaces@.len() - i,
    {
        let workspace = &workspaces[i];
        let bg = if workspace.focused {
            SvgAsset::BgAlt
        } else {
            SvgAsset::Bg
        };
        let mut bg_layer = plain(Content::Svg(bg));
        bg_layer.width = Some(BAR_SIZE);
        let mut ws_layer = plain(icon_layer_content(&workspace.icon));
        ws_layer.width = Some(ICON_SIZE);
        ws_layer.height = Some(ICON_SIZE);
        ws_layer.margin_bottom = Some(3);
        let mut layers: Vec<Layer> = Vec::new();
        layers.push(bg_layer);
        layers.push(ws_layer);
        let mut id_chars = prefix.clone();
        let digits = decimal_chars(i);
        let ghost before = id_chars@;
        id_chars.append(&mut digits.clone());
        assert(id_chars@ =~= workspace_module_id(i as nat));
        let id = string_of(&id_chars, 0, id_chars.len());
        assert(id_chars@.subrange(0, id_chars@.len() as int) =~= id_chars@);
        let module = BarModule { id, alignment: Alignment::Center, layers, index: Some(1 + i as u8) };
        assert(module.deep_view() == workspace_module(i as nat, ws[i as int])) by {
            assert(module.deep_view().layers =~= workspace_module(i as nat, ws[i as int]).layers);
        }
        let ghost before_modules = module_views(modules@);
        let ghost module_view = module.deep_view();
        modules.push(module);
        assert(module_views(modules@) =~= before_modules.push(module_view));
        i += 1;
        assert(module_views(modules@) =~= seq![
            corner_view("ws_corner_left"@, Alignment::Center, true, Some(0u8)),
        ] + Seq::new(i as nat, |k: int| workspace_module(k as nat, ws[k])));
    }
    // Add right corner SVG module.
    modules.push(indexed_corner("ws_corner_right", Alignment::Center, false, 255));
    assert(module_views(modules@) =~= workspace_modules_view(ws));
    modules
}

/// The date and time modules: the date at the start with a corner after it,
/// the time at the end with a corner before it; each on a dark background
/// under the background SVG, with 25 pixels of margin left and right.
pub open spec fn clock_modules_view(date: Seq<char>, time: Seq<char>) -> Seq<ModuleView> {
    let background = plain_layer(ContentView::Color(24, 24, 24));
    let background_svg = plain_layer(ContentView::Svg(SvgAsset::Bg));
    let margin = Some((0u32, 25u32, 0u32, 25u32));
    seq![
        ModuleView {
            id: "date_module"@,
            alignment: Alignment::Start,
            layers: seq![
                background,
                background_svg,
                LayerView { margin, ..plain_layer(ContentView::Text(date)) },
            ],
            index: Some(0u8),
        },
        corner_view("date_corner"@, Alignment::Start, false, Some(1u8)),
        corner_view("time_corner"@, Alignment::End, true, Some(0u8)),
        ModuleView {
            id: "time_module"@,
            alignment: Alignment::End,
            layers: seq![
                background,
                background_svg,
                LayerView { margin, ..plain_layer(ContentView::Text(time)) },
            ],
            index: Some(1u8),
        },
    ]
}

/// The three layers of a clock module.
fn clock_layers(text: String) -> (r: Vec<Layer>)
    ensures
        r@.map_values(|l: Layer| l.deep_view()) == seq![
            plain_layer(ContentView::Color(24, 24, 24)),
            plain_layer(ContentView::Svg(SvgAsset::Bg)),
            LayerView {
                margin: Some((0u32, 25u32, 0u32, 25u32)),
                ..plain_layer(ContentView::Text(text@))
            },
        ],
{
    // Use background color to size background SVG.
    let background = plain(Content::Color(24, 24, 24));
    let background_svg = plain(Content::Svg(SvgAsset::Bg));
    let mut text_layer = plain(Content::Text(text));
    text_layer.margin = Some((0, 25, 0, 25));
    let mut layers: Vec<Layer> = Vec::new();
    layers.push(background);
    layers.push(background_svg);
    layers.push(text_layer);
    assert(layers@.map_values(|l: Layer| l.deep_view()) =~= seq![
        plain_layer(ContentView::Color(24, 24, 24)),
        plain_layer(ContentView::Svg(SvgAsset::Bg)),
        LayerView {
            margin: Some((0u32, 25u32, 0u32, 25u32)),
            ..plain_layer(ContentView::Text(text@))
        },
    ]);
    layers
}

/// The date and time modules for the given date and time texts.
pub fn clock_modules(date: String, time: String) -> (r: Vec<BarModule>)
    ensures
        module_views(r@) == clock_modules_view(date@, time@),
{
    let ghost d = date@;
    let ghost t = time@;
    let mut modules: Vec<BarModule> = Vec::new();
    // Add date module.
    modules.push(
        BarModule {
            id: "date_module".to_owned(),
            alignment: Alignment::Start,
            layers: clock_layers(date),
            index: Some(0),
        },
    );
    // Add date corner SVG module.
    modules.push(indexed_corner("date_corner", Alignment::Start, false, 1));
    // Add time corner SVG module.
    modules.push(indexed_corner("time_corner", Alignment::End, true, 0));
    // Add time module.
    modules.push(
        BarModule {
            id: "time_module".to_owned(),
            alignment: Alignment::End,
            layers: clock_layers(time),
            index: Some(1),
        },
    );
    assert(module_views(modules@) =~= clock_modules_view(d, t));
    modules
}

/// Seconds until the next minute change, one second late: `61 - second`.
pub fn next_minute_delay(second: u32) -> (r: u64)
    requires
        second <= 60,
    ensures
        r == 61 - second,
{
    (60 - second + 1) as u64
}

} // verus!
