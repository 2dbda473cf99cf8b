//! State of the wallpaper daemon: one layer per output, what each shows, and
//! what each frame draws.

use vstd::prelude::*;
use crate::ipc::{law_change_wallpaper_request_read_back, spec_parse_request, Request, RequestView};
use crate::text::{decimal, push_decimal, push_signed_decimal, push_str, signed_decimal};

verus! {

/// What the compositor tells of an output.
pub struct OutputInfo {
    /// The output's name, such as `DP-1`.
    pub name: Option<String>,
    /// The model of the monitor.
    pub model: String,
    /// Position in the global compositor space.
    pub logical_position: Option<(i32, i32)>,
    /// Size in the global compositor space.
    pub logical_size: Option<(i32, i32)>,
}

/// The size of an output, as unsigned numbers (a negative size wraps around).
pub fn get_output_size(output: &OutputInfo) -> (res: (u32, u32))
    requires
        output.logical_size is Some,
    ensures
        output.logical_size matches Some((w, h)) && res == (w as u32, h as u32),
{
    let (width, height) = output.logical_size.unwrap();
    (width as u32, height as u32)
}

/// The position of an output.
pub fn get_output_pos(output: &OutputInfo) -> (res: (i32, i32))
    requires
        output.logical_position is Some,
    ensures
        res == output.logical_position->0,
{
    output.logical_position.unwrap()
}

/// The name of an output.
pub fn get_output_name(output: &OutputInfo) -> (res: String)
    requires
        output.name is Some,
    ensures
        res@ == output.name->0@,
{
    match &output.name {
        Some(n) => n.clone(),
        None => String::new(),
    }
}

/// The model of an output's monitor.
pub fn get_output_proper_name(output: &OutputInfo) -> (res: String)
    ensures
        res@ == output.model@,
{
    output.model.clone()
}

/// One line of the debug grid, from `(x0, y0)` to `(x1, y1)`.
#[derive(Clone, Copy, Debug, PartialEq, Eq, Structural)]
pub struct GridLine {
    pub x0: u32,
    pub y0: u32,
    pub x1: u32,
    pub y1: u32,
}

/// The debug grid of a `width` by `height` surface: a vertical line every 100
/// pixels from 0 to `width`, then a horizontal line every 100 pixels from 0
/// to `height`.
pub open spec fn grid_lines(width: u32, height: u32) -> Seq<GridLine> {
    Seq::new(
        (width / 100 + 1) as nat,
        |k: int| GridLine { x0: (k * 100) as u32, y0: 0, x1: (k * 100) as u32, y1: height },
    ) + Seq::new(
        (height / 100 + 1) as nat,
        |k: int| GridLine { x0: 0, y0: (k * 100) as u32, x1: width, y1: (k * 100) as u32 },
    )
}

/// What a frame paints on a layer.
pub enum DrawContent {
    /// Black, then the layer's wallpaper.
    Wallpaper,
    /// Magenta with a white grid of these lines.
    DebugGrid(Vec<GridLine>),
    /// Nothing: the buffer is left as it was.
    Nothing,
}

/// One frame of one layer: a `width` by `height` buffer of `stride` bytes a
/// row, painted with `content`, attached to the surface when `attach` holds;
/// the surface is then damaged, committed, and asks for the next frame.
pub struct DrawPlan {
    pub width: u32,
    pub height: u32,
    pub stride: i32,
    pub content: DrawContent,
    pub attach: bool,
}

/// The daemon's state for one output.
pub struct LayerData {
    /// What the compositor told of the output.
    pub info: OutputInfo,
    /// Whether the compositor has configured the layer surface.
    pub configured: bool,
    /// The identifier of the wallpaper shown, if any.
    pub wallpaper: Option<String>,
    /// Frames drawn so far.
    pub frames: i32,
    pub width: u32,
    pub height: u32,
}

impl LayerData {
    /// The lines of the debug grid.
    pub fn debug_background(width: u32, height: u32) -> (res: Vec<GridLine>)
        ensures
            res@ == grid_lines(width, height),
    {
        let mut res: Vec<GridLine> = Vec::new();
        let nx = width / 100;
        let mut k: u32 = 0;
        while k <= nx
            invariant
                nx == width / 100,
                k <= nx + 1,
                res@ =~= grid_lines(width, height).take(k as int),
            decreases nx + 1 - k,
        {
            let x = k * 100;
            res.push(GridLine { x0: x, y0: 0, x1: x, y1: height });
            k = k + 1;
        }
        let ny = height / 100;
        let mut j: u32 = 0;
        while j <= ny
            invariant
                nx == width / 100,
                ny == height / 100,
                j <= ny + 1,
                res@ =~= grid_lines(width, height).take(nx + 1 + j),
            decreases ny + 1 - j,
        {
            let y = j * 100;
            res.push(GridLine { x0: 0, y0: y, x1: width, y1: y });
            j = j + 1;
        }
        res
    }

    /// A layer just created for an output of the given size.
    pub fn new(info: OutputInfo, width: u32, height: u32) -> (res: LayerData)
        ensures
            res.info == info,
            !res.configured,
            res.wallpaper is None,
            res.frames == 0,
            res.width == width,
            res.height == height,
    {
        LayerData { info, configured: false, wallpaper: None, frames: 0, width, height }
    }

    /// A copy of this layer's state.
    pub fn copy(&self) -> (res: LayerData)
        ensures
            res == *self,
    {
        LayerData {
            info: OutputInfo {
                name: match &self.info.name {
                    Some(n) => Some(n.clone()),
                    None => None,
                },
                model: self.info.model.clone(),
                logical_position: self.info.logical_position,
                logical_size: self.info.logical_size,
            },
            configured: self.configured,
            wallpaper: match &self.wallpaper {
                Some(w) => Some(w.clone()),
                None => None,
            },
            frames: self.frames,
            width: self.width,
            height: self.height,
        }
    }

    /// Whether a frame can be drawn without an arithmetic overflow.
    pub open spec fn can_draw(&self) -> bool {
        &&& self.frames < i32::MAX
        &&& i32::MIN <= (self.width as i32) * 4 <= i32::MAX
    }

    /// Draws one frame: counts it, and paints the wallpaper if there is one,
    /// else the debug grid if `debug_draw` is set, else nothing. The buffer is
    /// attached only once the layer is configured.
    pub fn draw(&mut self, debug_draw: bool) -> (res: DrawPlan)
        requires
            old(self).can_draw(),
        ensures
            final(self).frames == old(self).frames + 1,
            final(self).info == old(self).info,
            final(self).configured == old(self).configured,
            final(self).wallpaper == old(self).wallpaper,
            final(self).width == old(self).width,
            final(self).height == old(self).height,
            res.width == old(self).width,
            res.height == old(self).height,
            res.stride == (old(self).width as i32) * 4,
            res.attach == old(self).configured,
            old(self).wallpaper is Some ==> res.content is Wallpaper,
            old(self).wallpaper is None && debug_draw ==> (res.content matches DrawContent::DebugGrid(lines)
                && lines@ == grid_lines(old(self).width, old(self).height)),
            old(self).wallpaper is None && !debug_draw ==> res.content is Nothing,
    {
        self.frames = self.frames + 1;
        let width = self.width;
        let height = self.height;
        let stride = (width as i32) * 4;
        let content = if self.wallpaper.is_some() {
            DrawContent::Wallpaper
        } else if debug_draw {
            DrawContent::DebugGrid(LayerData::debug_background(width, height))
        } else {
            DrawContent::Nothing
        };
        DrawPlan { width, height, stride, content, attach: self.configured }
    }
}

/// The size in bytes of the buffer pool for a `width` by `height` output:
/// four bytes a pixel.
pub fn pool_size(width: u32, height: u32) -> (res: usize)
    requires
        width * height * 4 <= u32::MAX,
    ensures
        res == width * height * 4,
{
    assert(width * height <= u32::MAX) by (nonlinear_arith)
        requires width * height * 4 <= u32::MAX;
    (width * height * 4) as usize
}

/// The width an output's logical size gives (as an unsigned number).
pub open spec fn size_width(info: OutputInfo) -> u32 {
    match info.logical_size {
        Some((w, _)) => w as u32,
        None => 0,
    }
}

/// The height an output's logical size gives (as an unsigned number).
pub open spec fn size_height(info: OutputInfo) -> u32 {
    match info.logical_size {
        Some((_, h)) => h as u32,
        None => 0,
    }
}

/// The layer a new output gets: unconfigured, without wallpaper, of the
/// output's size.
pub open spec fn fresh_layer(info: OutputInfo) -> LayerData {
    LayerData {
        info,
        configured: false,
        wallpaper: None,
        frames: 0,
        width: size_width(info),
        height: size_height(info),
    }
}

/// What the daemon does about a request.
pub enum EngineAction {
    /// Load the wallpaper for each of `outputs` in turn, show it there, and
    /// answer `Done.` (there is a wallpaper whenever there is an output).
    Apply { outputs: Vec<String>, wallpaper: Option<String> },
    /// Answer with this text.
    Reply(String),
    /// Answer nothing.
    NoReply,
}

/// What the daemon does about a request, over characters.
pub enum EngineActionView {
    Apply { outputs: Seq<Seq<char>>, wallpaper: Option<Seq<char>> },
    Reply(Seq<char>),
    NoReply,
}

impl EngineAction {
    pub open spec fn view(&self) -> EngineActionView {
        match self {
            EngineAction::Apply { outputs, wallpaper } => EngineActionView::Apply {
                outputs: crate::ipc::string_views(outputs@),
                wallpaper: match wallpaper {
                    Some(w) => Some(w@),
                    None => None,
                },
            },
            EngineAction::Reply(t) => EngineActionView::Reply(t@),
            EngineAction::NoReply => EngineActionView::NoReply,
        }
    }
}

/// Whether the text of a layer can be listed: its output's position and size are known.
pub open spec fn listable(st: LayerData) -> bool {
    st.info.logical_position is Some && st.info.logical_size is Some
}

/// The first line of an output's description: its name and model.
pub open spec fn name_part(name: Seq<char>, st: LayerData) -> Seq<char> {
    name + ": "@ + st.info.model@ + "\n"@
}

/// The line of an output's description that gives its position.
pub open spec fn pos_part(st: LayerData) -> Seq<char> {
    let pos = st.info.logical_position->0;
    "  -Pos:        ("@ + signed_decimal(pos.0 as int) + ", "@ + signed_decimal(pos.1 as int) + ")\n"@
}

/// The line of an output's description that gives its size.
pub open spec fn size_part(st: LayerData) -> Seq<char> {
    "  -Size:       ("@ + decimal(size_width(st.info) as nat) + ", "@ + decimal(
        size_height(st.info) as nat,
    ) + ")\n"@
}

/// The line of an output's description that gives its wallpaper.
pub open spec fn wallpaper_part(st: LayerData) -> Seq<char> {
    "  -Current WP: "@ + (match st.wallpaper {
        Some(w) => w@,
        None => "None"@,
    }) + "\n"@
}

/// The last line of an output's description, and an empty line.
pub open spec fn tmp_part(legacy: bool) -> Seq<char> {
    "  -Tmp:        "@ + (if legacy {
        "\"No value yet\""@
    } else {
        "No value yet"@
    }) + "\n\n"@
}

/// The description of one output in the answer to `list-outputs`.
pub open spec fn layer_block(name: Seq<char>, st: LayerData, legacy: bool) -> Seq<char> {
    name_part(name, st) + pos_part(st) + size_part(st) + wallpaper_part(st) + tmp_part(legacy)
}

/// The answer to `list-outputs`: the description of each output, in order.
pub open spec fn list_outputs_text(
    names: Seq<Seq<char>>,
    states: Seq<LayerData>,
    legacy: bool,
) -> Seq<char>
    decreases names.len(),
{
    if names.len() == 0 || states.len() == 0 {
        Seq::empty()
    } else {
        list_outputs_text(names.drop_last(), states.drop_last(), legacy) + layer_block(
            names.last(),
            states.last(),
            legacy,
        )
    }
}

/// The daemon's state: a layer for each output, by output name.
pub struct SimpleLayer {
    layers: Vec<(String, LayerData)>,
    exit: bool,
    debug_draw: bool,
    frames: i32,
}

impl SimpleLayer {
    #[verifier::type_invariant]
    spec fn inv(self) -> bool {
        forall|i: int, j: int|
            0 <= i < self.layers@.len() && 0 <= j < self.layers@.len() && i != j
                ==> #[trigger] self.layers@[i].0@ != #[trigger] self.layers@[j].0@
    }

    /// The names of the outputs, in the order their layers were made.
    pub closed spec fn names(&self) -> Seq<Seq<char>> {
        Seq::new(self.layers@.len(), |i: int| self.layers@[i].0@)
    }

    /// The layers, in the same order as `names`.
    pub closed spec fn states(&self) -> Seq<LayerData> {
        Seq::new(self.layers@.len(), |i: int| self.layers@[i].1)
    }

    /// Whether the daemon is to stop.
    pub closed spec fn exit_view(&self) -> bool {
        self.exit
    }

    /// Whether layers without wallpaper show the debug grid.
    pub closed spec fn debug_draw_view(&self) -> bool {
        self.debug_draw
    }

    /// Frames drawn by the older daemon's drawing of all layers.
    pub closed spec fn frames_view(&self) -> int {
        self.frames as int
    }

    /// Whether there is a layer for the output `name`.
    pub open spec fn has_output(&self, name: Seq<char>) -> bool {
        exists|i: int| 0 <= i < self.names().len() && #[trigger] self.names()[i] == name
    }

    /// The position of the layer of the output `name`.
    pub open spec fn output_index(&self, name: Seq<char>) -> int {
        choose|i: int| 0 <= i < self.names().len() && #[trigger] self.names()[i] == name
    }

    /// Names are distinct and there is one state per name.
    pub open spec fn well_formed(&self) -> bool {
        &&& self.names().len() == self.states().len()
        &&& forall|i: int, j: int|
            0 <= i < self.names().len() && 0 <= j < self.names().len() && i != j
                ==> #[trigger] self.names()[i] != #[trigger] self.names()[j]
    }


    /// Every daemon state is well formed: the names of the layers are
    /// distinct. Calling this tells a caller so of the state it holds; it does
    /// nothing when run.
    pub fn note_well_formed(&self)
        ensures
            self.well_formed(),
    {
        proof {
            use_type_invariant(self);
        }
    }

    /// A daemon with no output yet.
    pub fn new(debug_draw: bool) -> (res: SimpleLayer)
        ensures
            res.well_formed(),
            res.names() == Seq::<Seq<char>>::empty(),
            res.states() == Seq::<LayerData>::empty(),
            !res.exit_view(),
            res.debug_draw_view() == debug_draw,
            res.frames_view() == 0,
    {
        let res = SimpleLayer { layers: Vec::new(), exit: false, debug_draw, frames: 0 };
        assert(res.names() =~= Seq::<Seq<char>>::empty());
        assert(res.states() =~= Seq::<LayerData>::empty());
        res
    }

    /// Whether the daemon is to stop.
    pub fn exit(&self) -> (res: bool)
        ensures
            res == self.exit_view(),
    {
        self.exit
    }

    /// Whether layers without wallpaper show the debug grid.
    pub fn debug_draw(&self) -> (res: bool)
        ensures
            res == self.debug_draw_view(),
    {
        self.debug_draw
    }

    /// Frames drawn by the older daemon's drawing of all layers.
    pub fn frames(&self) -> (res: i32)
        ensures
            res == self.frames_view(),
    {
        self.frames
    }

    /// The number of outputs.
    pub fn len(&self) -> (res: usize)
        ensures
            res == self.names().len(),
    {
        self.layers.len()
    }

    /// The name of the `i`-th output.
    pub fn name_at(&self, i: usize) -> (res: String)
        requires
            i < self.names().len(),
        ensures
            res@ == self.names()[i as int],
    {
        self.layers[i].0.clone()
    }

    /// The state of the `i`-th output.
    pub fn layer_at(&self, i: usize) -> (res: &LayerData)
        requires
            i < self.names().len(),
        ensures
            *res == self.states()[i as int],
    {
        &self.layers[i].1
    }

    /// The position of the output `name`, if there is a layer for it.
    pub fn find(&self, name: &str) -> (res: Option<usize>)
        ensures
            res is None <==> !self.has_output(name@),
            res matches Some(i) ==> i < self.names().len() && self.names()[i as int] == name@
                && self.output_index(name@) == i,
    {
        proof {
            use_type_invariant(self);
        }
        let target = crate::text::chars_of(name);
        let mut i: usize = 0;
        while i < self.layers.len()
            invariant
                i <= self.layers@.len(),
                target@ == name@,
                forall|j: int| 0 <= j < i ==> self.names()[j] != name@,
            decreases self.layers.len() - i,
        {
            let cur = crate::text::chars_of(self.layers[i].0.as_str());
            if crate::text::chars_eq(cur.as_slice(), target.as_slice()) {
                assert(self.names()[i as int] == name@);
                assert(self.has_output(name@));
                proof {
                    use_type_invariant(self);
                }
                let ghost k = self.output_index(name@);
                assert(self.names()[k] == name@);
                assert(self.layers@[k].0@ == name@);
                assert(self.layers@[i as int].0@ == name@);
                assert(k == i);
                return Some(i);
            }
            i = i + 1;
        }
        None
    }

    /// The compositor closed a layer: the daemon is to stop.
    pub fn closed(&mut self)
        ensures
            final(self).well_formed(),
            final(self).exit_view(),
            final(self).names() == old(self).names(),
            final(self).states() == old(self).states(),
            final(self).debug_draw_view() == old(self).debug_draw_view(),
            final(self).frames_view() == old(self).frames_view(),
    {
        self.note_well_formed();
        proof {
            use_type_invariant(&*self);
        }
        self.exit = true;
    }

    /// Puts `st` in place of the `i`-th layer.
    fn replace_state(&mut self, i: usize, st: LayerData)
        requires
            i < old(self).names().len(),
        ensures
            final(self).well_formed(),
            final(self).names() == old(self).names(),
            final(self).states() == old(self).states().update(i as int, st),
            final(self).exit_view() == old(self).exit_view(),
            final(self).debug_draw_view() == old(self).debug_draw_view(),
            final(self).frames_view() == old(self).frames_view(),
    {
        proof {
            use_type_invariant(&*self);
        }
        let mut layers: Vec<(String, LayerData)> = Vec::new();
        std::mem::swap(&mut layers, &mut self.layers);
        let ghost before = layers@;
        let (name, _old_state) = layers.remove(i);
        layers.insert(i, (name, st));
        assert(forall|j: int| 0 <= j < layers@.len() && j != i ==> layers@[j] == before[j]);
        assert(layers@[i as int].0 == before[i as int].0);
        self.layers = layers;
        assert(self.names() =~= old(self).names());
        assert(self.states() =~= old(self).states().update(i as int, st));
        self.note_well_formed();
    }

    /// The compositor announced an output: a layer is made for it (one that
    /// had the same name is replaced). Gives the size of the buffer pool.
    pub fn new_output(&mut self, info: OutputInfo) -> (res: usize)
        requires
            info.name is Some,
            info.logical_size is Some,
            (size_width(info)) * (size_height(info)) * 4 <= u32::MAX,
        ensures
            final(self).well_formed(),
            res == (size_width(info)) * (size_height(info)) * 4,
            old(self).has_output(info.name->0@) ==> {
                &&& final(self).names() == old(self).names()
                &&& final(self).states() == old(self).states().update(
                    old(self).output_index(info.name->0@),
                    fresh_layer(info),
                )
            },
            !old(self).has_output(info.name->0@) ==> {
                &&& final(self).names() == old(self).names().push(info.name->0@)
                &&& final(self).states() == old(self).states().push(fresh_layer(info))
            },
            final(self).exit_view() == old(self).exit_view(),
            final(self).debug_draw_view() == old(self).debug_draw_view(),
            final(self).frames_view() == old(self).frames_view(),
    {
        self.note_well_formed();
        proof {
            use_type_invariant(&*self);
        }
        let (width, height) = get_output_size(&info);
        let size = pool_size(width, height);
        let name = get_output_name(&info);
        let st = LayerData::new(info, width, height);
        match self.find(name.as_str()) {
            Some(i) => {
                self.replace_state(i, st);
            },
            None => {
                let mut layers: Vec<(String, LayerData)> = Vec::new();
                std::mem::swap(&mut layers, &mut self.layers);
                let ghost before = layers@;
                let ghost nm = name@;
                layers.push((name, st));
                assert forall|i: int, j: int|
                    0 <= i < layers@.len() && 0 <= j < layers@.len() && i != j
                        implies #[trigger] layers@[i].0@ != #[trigger] layers@[j].0@ by {
                    if i == before.len() {
                        assert(old(self).names()[j] == before[j].0@);
                    } else if j == before.len() {
                        assert(old(self).names()[i] == before[i].0@);
                    }
                }
                self.layers = layers;
                assert(self.names() =~= old(self).names().push(nm));
                assert(self.states() =~= old(self).states().push(st));
                self.note_well_formed();
            },
        }
        size
    }

    /// The compositor changed an output: its layer takes the new size.
    /// Gives the new size of the buffer pool.
    pub fn update_output(&mut self, info: OutputInfo) -> (res: usize)
        requires
            info.name is Some,
            old(self).has_output(info.name->0@),
            info.logical_size is Some,
            (size_width(info)) * (size_height(info)) * 4 <= u32::MAX,
        ensures
            final(self).well_formed(),
            res == (size_width(info)) * (size_height(info)) * 4,
            final(self).names() == old(self).names(),
            ({
                let i = old(self).output_index(info.name->0@);
                let st = old(self).states()[i];
                final(self).states() == old(self).states().update(
                    i,
                    LayerData {
                        info,
                        width: size_width(info),
                        height: size_height(info),
                        ..st
                    },
                )
            }),
            final(self).exit_view() == old(self).exit_view(),
            final(self).debug_draw_view() == old(self).debug_draw_view(),
            final(self).frames_view() == old(self).frames_view(),
    {
        self.note_well_formed();
        let (width, height) = get_output_size(&info);
        let size = pool_size(width, height);
        let name = get_output_name(&info);
        let i = match self.find(name.as_str()) {
            Some(i) => i,
            None => {
                assert(false);
                0
            },
        };
        let mut st = self.layer_at(i).copy();
        st.info = info;
        st.width = width;
        st.height = height;
        self.replace_state(i, st);
        size
    }

    /// The compositor removed an output: its layer goes.
    pub fn output_destroyed(&mut self, info: &OutputInfo)
        requires
            info.name is Some,
            old(self).has_output(info.name->0@),
        ensures
            final(self).well_formed(),
            final(self).names() == old(self).names().remove(old(self).output_index(info.name->0@)),
            final(self).states() == old(self).states().remove(old(self).output_index(info.name->0@)),
            final(self).exit_view() == old(self).exit_view(),
            final(self).debug_draw_view() == old(self).debug_draw_view(),
            final(self).frames_view() == old(self).frames_view(),
    {
        self.note_well_formed();
        proof {
            use_type_invariant(&*self);
        }
        let name = get_output_name(info);
        let i = match self.find(name.as_str()) {
            Some(i) => i,
            None => {
                assert(false);
                0
            },
        };
        let mut layers: Vec<(String, LayerData)> = Vec::new();
        std::mem::swap(&mut layers, &mut self.layers);
        let ghost before = layers@;
        let _gone = layers.remove(i);
        assert forall|a: int, b: int|
            0 <= a < layers@.len() && 0 <= b < layers@.len() && a != b
                implies #[trigger] layers@[a].0@ != #[trigger] layers@[b].0@ by {
            let a0 = if a < i { a } else { a + 1 };
            let b0 = if b < i { b } else { b + 1 };
            assert(layers@[a] == before[a0]);
            assert(layers@[b] == before[b0]);
            assert(old(self).names()[a0] == before[a0].0@);
            assert(old(self).names()[b0] == before[b0].0@);
        }
        self.layers = layers;
        assert(self.names() =~= old(self).names().remove(i as int));
        assert(self.states() =~= old(self).states().remove(i as int));
        self.note_well_formed();
    }

    /// Shows the wallpaper `wallpaper` on the output `name` (its image has
    /// been loaded).
    pub fn set_wallpaper(&mut self, name: &str, wallpaper: String)
        requires
            old(self).has_output(name@),
        ensures
            final(self).well_formed(),
            final(self).names() == old(self).names(),
            ({
                let i = old(self).output_index(name@);
                let st = old(self).states()[i];
                final(self).states() == old(self).states().update(
                    i,
                    LayerData { wallpaper: Some(wallpaper), ..st },
                )
            }),
            final(self).exit_view() == old(self).exit_view(),
            final(self).debug_draw_view() == old(self).debug_draw_view(),
            final(self).frames_view() == old(self).frames_view(),
    {
        self.note_well_formed();
        let i = match self.find(name) {
            Some(i) => i,
            None => {
                assert(false);
                0
            },
        };
        let mut st = self.layer_at(i).copy();
        st.wallpaper = Some(wallpaper);
        self.replace_state(i, st);
    }

    /// Whether a frame of the layer `name` can be drawn at size `width` by
    /// `height` without an overflow.
    pub open spec fn can_configure(&self, name: Seq<char>, width: u32) -> bool {
        self.has_output(name) ==> LayerData {
            width,
            ..self.states()[self.output_index(name)]
        }.can_draw()
    }

    /// The compositor configured the layer of the output `name` to `width` by
    /// `height`: it takes that size, draws a frame (attached only if it was
    /// configured before), and is configured from then on.
    pub fn configure(&mut self, name: &str, width: u32, height: u32) -> (res: Option<DrawPlan>)
        requires
            old(self).can_configure(name@, width),
        ensures
            final(self).well_formed(),
            !old(self).has_output(name@) ==> res is None && final(self).states() == old(self).states(),
            old(self).has_output(name@) ==> ({
                let i = old(self).output_index(name@);
                let st = old(self).states()[i];
                &&& res matches Some(plan) && plan.width == width && plan.height == height
                    && plan.stride == (width as i32) * 4 && plan.attach == st.configured
                    && (st.wallpaper is Some ==> plan.content is Wallpaper)
                    && (st.wallpaper is None && old(self).debug_draw_view() ==> (plan.content matches DrawContent::DebugGrid(lines)
                        && lines@ == grid_lines(width, height)))
                    && (st.wallpaper is None && !old(self).debug_draw_view() ==> plan.content is Nothing)
                &&& final(self).states() == old(self).states().update(
                    i,
                    LayerData { configured: true, frames: (st.frames + 1) as i32, width, height, ..st },
                )
            }),
            final(self).names() == old(self).names(),
            final(self).exit_view() == old(self).exit_view(),
            final(self).debug_draw_view() == old(self).debug_draw_view(),
            final(self).frames_view() == old(self).frames_view(),
    {
        self.note_well_formed();
        match self.find(name) {
            Some(i) => {
                let mut st = self.layer_at(i).copy();
                st.width = width;
                st.height = height;
                let plan = st.draw(self.debug_draw);
                st.configured = true;
                self.replace_state(i, st);
                Some(plan)
            },
            None => None,
        }
    }

    /// The compositor asks the layer of the output `name` for a frame.
    pub fn frame(&mut self, name: &str) -> (res: Option<DrawPlan>)
        requires
            old(self).has_output(name@) ==> old(self).states()[old(self).output_index(name@)].can_draw(),
        ensures
            final(self).well_formed(),
            !old(self).has_output(name@) ==> res is None && final(self).states() == old(self).states(),
            old(self).has_output(name@) ==> ({
                let i = old(self).output_index(name@);
                let st = old(self).states()[i];
                &&& res matches Some(plan) && plan.width == st.width && plan.height == st.height
                    && plan.stride == (st.width as i32) * 4 && plan.attach == st.configured
                    && (st.wallpaper is Some ==> plan.content is Wallpaper)
                    && (st.wallpaper is None && old(self).debug_draw_view() ==> (plan.content matches DrawContent::DebugGrid(lines)
                        && lines@ == grid_lines(st.width, st.height)))
                    && (st.wallpaper is None && !old(self).debug_draw_view() ==> plan.content is Nothing)
                &&& final(self).states() == old(self).states().update(
                    i,
                    LayerData { frames: (st.frames + 1) as i32, ..st },
                )
            }),
            final(self).names() == old(self).names(),
            final(self).exit_view() == old(self).exit_view(),
            final(self).debug_draw_view() == old(self).debug_draw_view(),
            final(self).frames_view() == old(self).frames_view(),
    {
        self.note_well_formed();
        match self.find(name) {
            Some(i) => {
                let mut st = self.layer_at(i).copy();
                let plan = st.draw(self.debug_draw);
                self.replace_state(i, st);
                Some(plan)
            },
            None => None,
        }
    }

    /// Whether answering the request would stop the daemon: a `set` without
    /// a wallpaper that names a known output, or `all` while there are outputs.
    pub open spec fn respond_fails(&self, req: RequestView) -> bool {
        req matches RequestView::SetWallpaper { target, wallpaper } && wallpaper is None && (
        if target == "all"@ {
            self.names().len() > 0
        } else {
            self.has_output(target)
        })
    }

    /// Whether every output's position and size are known.
    pub open spec fn all_listable(&self) -> bool {
        forall|i: int| 0 <= i < self.states().len() ==> listable(#[trigger] self.states()[i])
    }

    /// What the daemon does about a request: `set` on `all` applies the
    /// wallpaper to every output, `set` on a known output to that output,
    /// `set` on an unknown one answers `Output doesn't exist.`; `list-outputs`
    /// answers the description of the outputs; `option` and `save` answer
    /// nothing; anything else answers `Not recognised.`.
    pub open spec fn spec_respond(&self, req: RequestView, legacy: bool) -> EngineActionView {
        match req {
            RequestView::SetWallpaper { target, wallpaper } => {
                if target == "all"@ {
                    EngineActionView::Apply { outputs: self.names(), wallpaper }
                } else if self.has_output(target) {
                    EngineActionView::Apply { outputs: seq![target], wallpaper }
                } else {
                    EngineActionView::Reply("Output doesn't exist."@)
                }
            },
            RequestView::ListOutputs => EngineActionView::Reply(
                list_outputs_text(self.names(), self.states(), legacy),
            ),
            RequestView::SetOption => EngineActionView::NoReply,
            RequestView::Save => EngineActionView::NoReply,
            RequestView::Unknown { .. } => EngineActionView::Reply("Not recognised."@),
        }
    }

    /// All output names, in order.
    fn all_names(&self) -> (res: Vec<String>)
        ensures
            crate::ipc::string_views(res@) == self.names(),
    {
        let mut res: Vec<String> = Vec::new();
        let mut i: usize = 0;
        while i < self.len()
            invariant
                i <= self.names().len(),
                crate::ipc::string_views(res@) =~= self.names().take(i as int),
            decreases self.names().len() - i,
        {
            let n = self.name_at(i);
            let ghost before = res@;
            res.push(n);
            assert(crate::ipc::string_views(res@) =~= crate::ipc::string_views(before).push(n@));
            assert(self.names().take(i + 1) =~= self.names().take(i as int).push(self.names()[i as int]));
            i = i + 1;
        }
        assert(self.names().take(self.names().len() as int) =~= self.names());
        res
    }

    /// Decides what to do about a request (`legacy` for the older daemon,
    /// which differs in how it lists outputs).
    pub fn respond(&self, req: &Request, legacy: bool) -> (res: EngineAction)
        requires
            !self.respond_fails(req.view()),
            req.view() is ListOutputs ==> self.all_listable(),
        ensures
            res.view() == self.spec_respond(req.view(), legacy),
            res matches EngineAction::Apply { outputs, wallpaper } ==> (outputs.len() > 0
                ==> wallpaper is Some),
    {
        match req {
            Request::SetWallpaper { target, wallpaper } => {
                let w = match wallpaper {
                    Some(w) => Some(w.clone()),
                    None => None,
                };
                let tc = crate::text::chars_of(target.as_str());
                if crate::text::chars_eq_str(tc.as_slice(), "all") {
                    EngineAction::Apply { outputs: self.all_names(), wallpaper: w }
                } else {
                    match self.find(target.as_str()) {
                        Some(_) => {
                            let mut outputs: Vec<String> = Vec::new();
                            outputs.push(target.clone());
                            assert(crate::ipc::string_views(outputs@) =~= seq![target@]);
                            EngineAction::Apply { outputs, wallpaper: w }
                        },
                        None => {
                            let mut t = String::new();
                            push_str(&mut t, "Output doesn't exist.");
                            EngineAction::Reply(t)
                        },
                    }
                }
            },
            Request::ListOutputs => EngineAction::Reply(self.list_outputs(legacy)),
            Request::SetOption => EngineAction::NoReply,
            Request::Save => EngineAction::NoReply,
            Request::Unknown { .. } => {
                let mut t = String::new();
                push_str(&mut t, "Not recognised.");
                EngineAction::Reply(t)
            },
        }
    }

    /// The answer to `list-outputs`.
    pub fn list_outputs(&self, legacy: bool) -> (res: String)
        requires
            self.all_listable(),
        ensures
            res@ == list_outputs_text(self.names(), self.states(), legacy),
    {
        let mut s = String::new();
        let mut i: usize = 0;
        assert(self.names().take(0) =~= Seq::<Seq<char>>::empty());
        while i < self.len()
            invariant
                i <= self.names().len(),
                self.names().len() == self.states().len(),
                self.all_listable(),
                s@ == list_outputs_text(self.names().take(i as int), self.states().take(i as int), legacy),
            decreases self.names().len() - i,
        {
            let name = self.name_at(i);
            let st = self.layer_at(i);
            assert(listable(self.states()[i as int]));
            push_layer_block(&mut s, name.as_str(), st, legacy);
            assert(self.names().take(i + 1).drop_last() =~= self.names().take(i as int));
            assert(self.states().take(i + 1).drop_last() =~= self.states().take(i as int));
            i = i + 1;
        }
        assert(self.names().take(self.names().len() as int) =~= self.names());
        assert(self.states().take(self.states().len() as int) =~= self.states());
        s
    }
}

fn push_name_part(s: &mut String, name: &str, st: &LayerData)
    ensures
        final(s)@ == old(s)@ + name_part(name@, *st),
{
    let ghost s0 = s@;
    push_str(s, name);
    push_str(s, ": ");
    push_str(s, st.info.model.as_str());
    push_str(s, "\n");
    assert(s@ =~= s0 + name_part(name@, *st));
}

fn push_pos_part(s: &mut String, st: &LayerData)
    requires
        listable(*st),
    ensures
        final(s)@ == old(s)@ + pos_part(*st),
{
    let ghost s0 = s@;
    let pos = get_output_pos(&st.info);
    push_str(s, "  -Pos:        (");
    push_signed_decimal(s, pos.0 as i64);
    push_str(s, ", ");
    push_signed_decimal(s, pos.1 as i64);
    push_str(s, ")\n");
    assert(s@ =~= s0 + pos_part(*st));
}

fn push_size_part(s: &mut String, st: &LayerData)
    requires
        listable(*st),
    ensures
        final(s)@ == old(s)@ + size_part(*st),
{
    let ghost s0 = s@;
    let size = get_output_size(&st.info);
    push_str(s, "  -Size:       (");
    push_decimal(s, size.0 as u64);
    push_str(s, ", ");
    push_decimal(s, size.1 as u64);
    push_str(s, ")\n");
    assert(s@ =~= s0 + size_part(*st));
}

fn push_wallpaper_part(s: &mut String, st: &LayerData)
    ensures
        final(s)@ == old(s)@ + wallpaper_part(*st),
{
    let ghost s0 = s@;
    push_str(s, "  -Current WP: ");
    match &st.wallpaper {
        Some(w) => push_str(s, w.as_str()),
        None => push_str(s, "None"),
    }
    push_str(s, "\n");
    assert(s@ =~= s0 + wallpaper_part(*st));
}

fn push_tmp_part(s: &mut String, legacy: bool)
    ensures
        final(s)@ == old(s)@ + tmp_part(legacy),
{
    let ghost s0 = s@;
    push_str(s, "  -Tmp:        ");
    if legacy {
        push_str(s, "\"No value yet\"");
    } else {
        push_str(s, "No value yet");
    }
    push_str(s, "\n\n");
    assert(s@ =~= s0 + tmp_part(legacy));
}

/// Appends the description of the output `name` with the layer `st`.
fn push_layer_block(s: &mut String, name: &str, st: &LayerData, legacy: bool)
    requires
        listable(*st),
    ensures
        final(s)@ == old(s)@ + layer_block(name@, *st, legacy),
{
    let ghost s0 = s@;
    push_name_part(s, name, st);
    push_pos_part(s, st);
    push_size_part(s, st);
    push_wallpaper_part(s, st);
    push_tmp_part(s, legacy);
    let ghost a = name_part(name@, *st);
    let ghost b = pos_part(*st);
    let ghost c = size_part(*st);
    let ghost d = wallpaper_part(*st);
    let ghost e = tmp_part(legacy);
    assert(s@ =~= s0 + (a + b + c + d + e));
}

/// The number of layers, from the first, that are configured.
pub open spec fn configured_prefix(states: Seq<LayerData>) -> nat
    decreases states.len(),
{
    if states.len() == 0 || !states[0].configured {
        0
    } else {
        1 + configured_prefix(states.drop_first())
    }
}

proof fn lemma_configured_prefix(states: Seq<LayerData>, k: int)
    requires
        0 <= k <= states.len(),
        forall|j: int| 0 <= j < k ==> (#[trigger] states[j]).configured,
        k < states.len() ==> !states[k].configured,
    ensures
        configured_prefix(states) == k,
    decreases k,
{
    if k > 0 {
        let t = states.drop_first();
        assert forall|j: int| 0 <= j < k - 1 implies (#[trigger] t[j]).configured by {
            assert(t[j] == states[j + 1]);
        }
        if k < states.len() {
            assert(t[k - 1] == states[k]);
        }
        assert(states[0].configured);
        lemma_configured_prefix(t, k - 1);
    }
}

/// The frame the older daemon draws for a layer: its wallpaper if it has
/// one, else nothing, always attached.
pub open spec fn legacy_plan_matches(plan: DrawPlan, st: LayerData) -> bool {
    &&& plan.width == st.width
    &&& plan.height == st.height
    &&& plan.stride == (st.width as i32) * 4
    &&& plan.attach
    &&& (st.wallpaper is Some ==> plan.content is Wallpaper)
    &&& (st.wallpaper is None ==> plan.content is Nothing)
}

impl SimpleLayer {
    /// Whether the older daemon can draw all layers without an overflow.
    pub open spec fn can_draw_all(&self) -> bool {
        &&& self.frames_view() < i32::MAX
        &&& forall|i: int|
            0 <= i < configured_prefix(self.states()) ==> i32::MIN <= ((#[trigger] self.states()[i]).width as i32) * 4 <= i32::MAX
    }

    /// The older daemon's drawing: counts a frame, then draws the layers in
    /// order and stops at the first one that is not configured.
    pub fn draw(&mut self) -> (res: Vec<DrawPlan>)
        requires
            old(self).can_draw_all(),
        ensures
            final(self).well_formed(),
            final(self).frames_view() == old(self).frames_view() + 1,
            final(self).names() == old(self).names(),
            final(self).states() == old(self).states(),
            final(self).exit_view() == old(self).exit_view(),
            final(self).debug_draw_view() == old(self).debug_draw_view(),
            res@.len() == configured_prefix(old(self).states()),
            forall|i: int| 0 <= i < res@.len() ==> legacy_plan_matches(#[trigger] res@[i], old(self).states()[i]),
    {
        proof {
            use_type_invariant(&*self);
        }
        self.frames = self.frames + 1;
        self.note_well_formed();
        let mut res: Vec<DrawPlan> = Vec::new();
        let mut i: usize = 0;
        while i < self.len()
            invariant
                i <= self.states().len(),
                self.states() == old(self).states(),
                self.names() == old(self).names(),
                self.frames_view() == old(self).frames_view() + 1,
                self.exit_view() == old(self).exit_view(),
                self.debug_draw_view() == old(self).debug_draw_view(),
                self.names().len() == self.states().len(),
                self.well_formed(),
                old(self).can_draw_all(),
                res@.len() == i,
                forall|j: int| 0 <= j < i ==> (#[trigger] self.states()[j]).configured,
                forall|j: int| 0 <= j < i ==> legacy_plan_matches(#[trigger] res@[j], self.states()[j]),
            decreases self.states().len() - i,
        {
            let st = self.layer_at(i);
            if !st.configured {
                proof {
                    lemma_configured_prefix(self.states(), i as int);
                }
                return res;
            }
            proof {
                lemma_configured_prefix_at_least(self.states(), i as int);
                assert(old(self).states()[i as int] == *st);
            }
            assert(i32::MIN <= (st.width as i32) * 4 <= i32::MAX);
            let content = if st.wallpaper.is_some() {
                DrawContent::Wallpaper
            } else {
                DrawContent::Nothing
            };
            let plan = DrawPlan {
                width: st.width,
                height: st.height,
                stride: (st.width as i32) * 4,
                content,
                attach: true,
            };
            res.push(plan);
            i = i + 1;
        }
        proof {
            lemma_configured_prefix(self.states(), i as int);
        }
        res
    }

    /// The layers once the older daemon has taken a configure event of the
    /// output `name`: that layer takes the size and is configured.
    pub open spec fn legacy_configured_states(&self, name: Seq<char>, width: u32, height: u32) -> Seq<LayerData> {
        if self.has_output(name) {
            self.states().update(
                self.output_index(name),
                LayerData { configured: true, width, height, ..self.states()[self.output_index(name)] },
            )
        } else {
            self.states()
        }
    }

    /// The older daemon's handling of a configure event: the layer of the
    /// output `name` takes the size and is configured, then all layers are drawn.
    pub fn legacy_configure(&mut self, name: &str, width: u32, height: u32) -> (res: Vec<DrawPlan>)
        requires
            old(self).frames_view() < i32::MAX,
            forall|i: int|
                0 <= i < configured_prefix(old(self).legacy_configured_states(name@, width, height))
                    ==> i32::MIN <= ((#[trigger] old(self).legacy_configured_states(name@, width, height)[i]).width as i32) * 4 <= i32::MAX,
        ensures
            final(self).well_formed(),
            final(self).names() == old(self).names(),
            final(self).frames_view() == old(self).frames_view() + 1,
            old(self).has_output(name@) ==> final(self).states() == old(self).states().update(
                old(self).output_index(name@),
                LayerData { configured: true, width, height, ..old(self).states()[old(self).output_index(name@)] },
            ),
            !old(self).has_output(name@) ==> final(self).states() == old(self).states(),
            res@.len() == configured_prefix(final(self).states()),
            forall|i: int| 0 <= i < res@.len() ==> legacy_plan_matches(#[trigger] res@[i], final(self).states()[i]),
    {
        self.note_well_formed();
        match self.find(name) {
            Some(i) => {
                let mut st = self.layer_at(i).copy();
                st.width = width;
                st.height = height;
                st.configured = true;
                self.replace_state(i, st);
            },
            None => {},
        }
        assert(self.states() == old(self).legacy_configured_states(name@, width, height));
        self.draw()
    }
}

/// Past `i` configured layers, the configured prefix reaches beyond `i` when
/// the `i`-th is configured too.
proof fn lemma_configured_prefix_at_least(states: Seq<LayerData>, i: int)
    requires
        0 <= i < states.len(),
        forall|j: int| 0 <= j <= i ==> (#[trigger] states[j]).configured,
    ensures
        configured_prefix(states) > i,
    decreases i,
{
    if i > 0 {
        let t = states.drop_first();
        assert forall|j: int| 0 <= j <= i - 1 implies (#[trigger] t[j]).configured by {
            assert(t[j] == states[j + 1]);
        }
        lemma_configured_prefix_at_least(t, i - 1);
    }
    assert(states[0].configured);
}

/// Law: a `set` request that a tool makes for a known output (other than
/// `all`), whose output and wallpaper hold no `:` and no `,`, makes the
/// daemon apply that wallpaper to that output alone.
pub proof fn law_set_request_reaches_output(
    state: SimpleLayer,
    output: Seq<char>,
    wallpaper: Seq<char>,
)
    requires
        !output.contains(':'),
        !output.contains(','),
        !wallpaper.contains(':'),
        !wallpaper.contains(','),
        output != "all"@,
        state.has_output(output),
    ensures
        !state.respond_fails(spec_parse_request("set:"@ + output + ","@ + wallpaper)),
        state.spec_respond(spec_parse_request("set:"@ + output + ","@ + wallpaper), false)
            == (EngineActionView::Apply { outputs: seq![output], wallpaper: Some(wallpaper) }),
{
    law_change_wallpaper_request_read_back(output, wallpaper);
}

/// Law: a `set` request for `all`, with a wallpaper that holds no `:` and no
/// `,`, makes the daemon apply that wallpaper to every output, in order.
pub proof fn law_set_all_reaches_every_output(state: SimpleLayer, wallpaper: Seq<char>)
    requires
        !wallpaper.contains(':'),
        !wallpaper.contains(','),
    ensures
        !state.respond_fails(spec_parse_request("set:"@ + "all"@ + ","@ + wallpaper)),
        state.spec_respond(spec_parse_request("set:"@ + "all"@ + ","@ + wallpaper), false)
            == (EngineActionView::Apply { outputs: state.names(), wallpaper: Some(wallpaper) }),
{
    reveal_strlit("all");
    assert(!"all"@.contains(':')) by {
        if "all"@.contains(':') {
            let k = choose|k: int| 0 <= k < "all"@.len() && "all"@[k] == ':';
        }
    }
    assert(!"all"@.contains(',')) by {
        if "all"@.contains(',') {
            let k = choose|k: int| 0 <= k < "all"@.len() && "all"@[k] == ',';
        }
    }
    law_change_wallpaper_request_read_back("all"@, wallpaper);
}

/// Law: the daemon answers nothing to an option request, whatever the
/// setting and value.
pub proof fn law_option_request_unanswered(state: SimpleLayer, setting: Seq<char>, value: Seq<char>)
    ensures
        !state.respond_fails(spec_parse_request("option:"@ + setting + ","@ + value)),
        state.spec_respond(spec_parse_request("option:"@ + setting + ","@ + value), false)
            == EngineActionView::NoReply,
{
    crate::ipc::law_option_request_read_back(setting, value);
}

/// Whether `needle` stands in `hay` from position `k` on.
pub open spec fn occurs_at(hay: Seq<char>, needle: Seq<char>, k: int) -> bool {
    &&& 0 <= k
    &&& k + needle.len() <= hay.len()
    &&& hay.subrange(k, k + needle.len()) == needle
}

/// An integer in decimal, with a leading `-` when it is negative.
pub open spec fn with_sign(n: int) -> Seq<char> {
    if n < 0 {
        seq!['-'] + decimal((-n) as nat)
    } else {
        decimal(n as nat)
    }
}

/// The first two lines of the description of output `name` at `(x, y)`:
/// `<name>: <model>` and `  -Pos:        (<x>, <y>)`, the coordinates signed.
pub open spec fn name_and_position_lines(name: Seq<char>, model: Seq<char>, x: int, y: int) -> Seq<char> {
    name + ": "@ + model + "\n"@ + "  -Pos:        ("@ + with_sign(x) + ", "@ + with_sign(y) + ")\n"@
}

/// Law: the answer to `list-outputs` describes every output: it holds the
/// output's name and model, followed by its logical position as two signed
/// decimal numbers (a negative coordinate with its `-`).
pub proof fn law_listing_shows_signed_positions(
    names: Seq<Seq<char>>,
    states: Seq<LayerData>,
    legacy: bool,
    i: int,
)
    requires
        names.len() == states.len(),
        0 <= i < names.len(),
        states[i].info.logical_position is Some,
    ensures
        ({
            let pos = states[i].info.logical_position->0;
            exists|k: int|
                #[trigger] occurs_at(
                    list_outputs_text(names, states, legacy),
                    name_and_position_lines(names[i], states[i].info.model@, pos.0 as int, pos.1 as int),
                    k,
                )
        }),
    decreases names.len(),
{
    let text = list_outputs_text(names, states, legacy);
    let st = states[i];
    let pos = st.info.logical_position->0;
    let needle = name_and_position_lines(names[i], st.info.model@, pos.0 as int, pos.1 as int);
    let n = names.len() - 1;
    let init_text = list_outputs_text(names.drop_last(), states.drop_last(), legacy);
    let block = layer_block(names.last(), states.last(), legacy);
    assert(text == init_text + block);
    if i == n {
        let st_last = states.last();
        assert(st_last == st);
        let rest = size_part(st) + wallpaper_part(st) + tmp_part(legacy);
        assert(block =~= needle + rest);
        let k = init_text.len() as int;
        assert(text.subrange(k, k + needle.len()) =~= needle);
        assert(occurs_at(text, needle, k));
    } else {
        assert(names.drop_last()[i] == names[i]);
        assert(states.drop_last()[i] == states[i]);
        law_listing_shows_signed_positions(names.drop_last(), states.drop_last(), legacy, i);
        let k = choose|k: int| occurs_at(init_text, needle, k);
        assert(text.subrange(k, k + needle.len()) =~= init_text.subrange(k, k + needle.len()));
        assert(occurs_at(text, needle, k));
    }
}

} // verus!
