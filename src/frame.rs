use vstd::prelude::*;

use crate::material::PipelineKind;
use crate::obj_loader::Submesh;

verus! {

/// What acquiring the next swap image gave.
#[derive(Clone, Copy, Debug, PartialEq, Eq, Structural)]
pub enum AcquireStatus {
    Acquired,
    Timeout,
    Outdated,
    Lost,
    OutOfMemory,
    Other,
}

/// How a frame ended.
#[derive(Clone, Copy, Debug, PartialEq, Eq, Structural)]
pub enum FrameOutcome {
    /// The frame was recorded, submitted and presented.
    Presented,
    /// The surface is lost or outdated: rebuild it and resize before the next frame.
    SurfaceLost,
    /// Any other failure: reported, the frame dropped, nothing retried.
    Fatal(AcquireStatus),
}

/// Whether the surface can be drawn to.
#[derive(Clone, Copy, Debug, PartialEq, Eq, Structural)]
pub enum SurfaceState {
    Ready,
    NeedsSurfaceRebuild,
}

/// The size that the surface and the depth buffer are configured with.
#[derive(Clone, Copy, Debug, PartialEq, Eq, Structural)]
pub struct SurfaceConfig {
    pub width: u32,
    pub height: u32,
}

/// The surface state machine of the frame renderer: the window size, the
/// surface configuration, the depth buffer's size, and whether the surface must
/// be rebuilt before the next frame.
#[derive(Clone, Copy, Debug, PartialEq, Eq, Structural)]
pub struct FrameRenderer {
    pub width: i32,
    pub height: i32,
    pub config: SurfaceConfig,
    pub depth: SurfaceConfig,
    pub state: SurfaceState,
}

pub open spec fn config_of(width: i32, height: i32) -> SurfaceConfig {
    SurfaceConfig { width: width as u32, height: height as u32 }
}

/// The outcome of a frame whose acquisition gave `s`.
pub open spec fn outcome_of(s: AcquireStatus) -> FrameOutcome {
    match s {
        AcquireStatus::Acquired => FrameOutcome::Presented,
        AcquireStatus::Lost | AcquireStatus::Outdated => FrameOutcome::SurfaceLost,
        _ => FrameOutcome::Fatal(s),
    }
}

/// The renderer after a resize to `(w, h)`: applied when both are positive,
/// ignored otherwise.
pub open spec fn resized(r: FrameRenderer, w: i32, h: i32) -> FrameRenderer {
    if w > 0 && h > 0 {
        FrameRenderer { width: w, height: h, config: config_of(w, h), depth: config_of(w, h), ..r }
    } else {
        r
    }
}

/// The renderer after a frame whose acquisition gave `s`.
pub open spec fn after_frame(r: FrameRenderer, s: AcquireStatus) -> FrameRenderer {
    if outcome_of(s) == FrameOutcome::SurfaceLost {
        FrameRenderer { state: SurfaceState::NeedsSurfaceRebuild, ..r }
    } else {
        r
    }
}

/// The renderer after its surface was recreated and reconfigured at the current size.
pub open spec fn rebuilt(r: FrameRenderer) -> FrameRenderer {
    resized(FrameRenderer { state: SurfaceState::Ready, ..r }, r.width, r.height)
}

impl FrameRenderer {
    /// The size is positive and the surface and depth buffer are configured at it.
    pub open spec fn wf(&self) -> bool {
        &&& self.width > 0
        &&& self.height > 0
        &&& self.config == config_of(self.width, self.height)
        &&& self.depth == config_of(self.width, self.height)
    }

    /// A renderer whose surface and depth buffer are configured at `(width, height)`.
    pub fn new(width: i32, height: i32) -> (r: FrameRenderer)
        requires
            width > 0,
            height > 0,
        ensures
            r.wf(),
            r.width == width,
            r.height == height,
            r.state == SurfaceState::Ready,
    {
        let config = SurfaceConfig { width: width as u32, height: height as u32 };
        FrameRenderer { width, height, config, depth: config, state: SurfaceState::Ready }
    }

    /// Applies a new window size. Returns whether the surface must be reconfigured
    /// and the depth buffer recreated; a size with a dimension not above zero is
    /// ignored.
    pub fn resize(&mut self, width: i32, height: i32) -> (applied: bool)
        ensures
            *final(self) == resized(*old(self), width, height),
            applied == (width > 0 && height > 0),
            old(self).wf() ==> final(self).wf(),
    {
        if width > 0 && height > 0 {
            self.width = width;
            self.height = height;
            self.config = SurfaceConfig { width: width as u32, height: height as u32 };
            self.depth = self.config;
            true
        } else {
            false
        }
    }

    /// Records that the surface was recreated, then resizes to the current size.
    pub fn rebuild_surface(&mut self) -> (applied: bool)
        ensures
            *final(self) == rebuilt(*old(self)),
            old(self).wf() ==> applied && final(self).wf() && final(self).state == SurfaceState::Ready,
    {
        self.state = SurfaceState::Ready;
        let w = self.width;
        let h = self.height;
        self.resize(w, h)
    }

    /// Whether the next frame may acquire a swap image.
    pub fn can_render(&self) -> (r: bool)
        ensures
            r == (self.state == SurfaceState::Ready),
    {
        match self.state {
            SurfaceState::Ready => true,
            SurfaceState::NeedsSurfaceRebuild => false,
        }
    }

    /// Classifies a frame by what acquiring its swap image gave. A lost or
    /// outdated surface asks for a rebuild and is not retried in this frame.
    pub fn render_frame(&mut self, acquired: AcquireStatus) -> (o: FrameOutcome)
        ensures
            o == outcome_of(acquired),
            *final(self) == after_frame(*old(self), acquired),
    {
        match acquired {
            AcquireStatus::Acquired => FrameOutcome::Presented,
            AcquireStatus::Lost | AcquireStatus::Outdated => {
                self.state = SurfaceState::NeedsSurfaceRebuild;
                FrameOutcome::SurfaceLost
            },
            _ => FrameOutcome::Fatal(acquired),
        }
    }
}

/// A resize with both dimensions positive leaves the surface and depth buffer
/// configured at exactly that size; any other resize changes nothing.
pub proof fn lemma_resize_applies(r: FrameRenderer, w: i32, h: i32)
    ensures
        w > 0 && h > 0 ==> resized(r, w, h).config.width == w && resized(r, w, h).config.height == h
            && resized(r, w, h).depth == resized(r, w, h).config,
        !(w > 0 && h > 0) ==> resized(r, w, h) == r,
        resized(resized(r, w, h), w, h) == resized(r, w, h),
{
}

/// A lost or outdated surface is a transient outcome, never a fatal one; after
/// it, rebuilding the surface (which resizes to the current size) makes the
/// renderer ready again at the same size, and a frame that then acquires its
/// image is presented.
pub proof fn lemma_surface_lost_recovers(r: FrameRenderer, s: AcquireStatus)
    requires
        r.wf(),
        s == AcquireStatus::Lost || s == AcquireStatus::Outdated,
    ensures
        outcome_of(s) == FrameOutcome::SurfaceLost,
        after_frame(r, s).state == SurfaceState::NeedsSurfaceRebuild,
        rebuilt(after_frame(r, s)).wf(),
        rebuilt(after_frame(r, s)).state == SurfaceState::Ready,
        rebuilt(after_frame(r, s)).width == r.width,
        rebuilt(after_frame(r, s)).height == r.height,
        outcome_of(AcquireStatus::Acquired) == FrameOutcome::Presented,
        after_frame(rebuilt(after_frame(r, s)), AcquireStatus::Acquired) == rebuilt(after_frame(r, s)),
{
}

/// The geometry a draw reads.
#[derive(Clone, Copy, Debug, PartialEq, Eq, Structural)]
pub enum Geometry {
    Quad,
    Triangle,
    Model(usize),
}

/// The resource bound to a bind group.
#[derive(Clone, Copy, Debug, PartialEq, Eq, Structural)]
pub enum Binding {
    QuadMaterial,
    TriangleMaterial,
    Material(usize),
    Transform(usize),
    ViewProjection,
}

/// One command of a render pass.
#[derive(Clone, Copy, Debug, PartialEq, Eq, Structural)]
pub enum Command {
    SetPipeline(PipelineKind),
    SetBindGroup(u32, Binding),
    /// Binds the vertex region of a geometry buffer.
    SetVertexBuffer(Geometry),
    /// Binds the index region of a geometry buffer.
    SetIndexBuffer(Geometry),
    /// Draws vertices `0..n` without indices.
    Draw(u32),
    /// Draws indices `first..first + count`.
    DrawIndexed(u32, u32),
}

pub open spec fn quad_prologue() -> Seq<Command> {
    seq![
        Command::SetPipeline(PipelineKind::Simple),
        Command::SetBindGroup(0, Binding::QuadMaterial),
        Command::SetBindGroup(2, Binding::ViewProjection),
        Command::SetVertexBuffer(Geometry::Quad),
        Command::SetIndexBuffer(Geometry::Quad),
    ]
}

/// Per quad: its transform slot, then its six indices.
pub open spec fn quad_draws(n: nat) -> Seq<Command> {
    Seq::new(
        2 * n,
        |j: int|
            if j % 2 == 0 {
                Command::SetBindGroup(1, Binding::Transform((j / 2) as usize))
            } else {
                Command::DrawIndexed(0, 6)
            },
    )
}

pub open spec fn triangle_prologue() -> Seq<Command> {
    seq![
        Command::SetBindGroup(0, Binding::TriangleMaterial),
        Command::SetVertexBuffer(Geometry::Triangle),
    ]
}

/// Per triangle: its transform slot, after the quads' slots, then its three vertices.
pub open spec fn triangle_draws(n_quads: nat, n: nat) -> Seq<Command> {
    Seq::new(
        2 * n,
        |j: int|
            if j % 2 == 0 {
                Command::SetBindGroup(1, Binding::Transform((n_quads + j / 2) as usize))
            } else {
                Command::Draw(3)
            },
    )
}

/// Per submesh: the pipeline and bind group of its material, then its indices.
pub open spec fn submesh_draws(subs: Seq<Submesh>, kinds: Seq<PipelineKind>) -> Seq<Command> {
    Seq::new(
        3 * subs.len(),
        |j: int|
            if j % 3 == 0 {
                Command::SetPipeline(kinds[subs[j / 3].material_id as int])
            } else if j % 3 == 1 {
                Command::SetBindGroup(0, Binding::Material(subs[j / 3].material_id))
            } else {
                Command::DrawIndexed(subs[j / 3].first_index, subs[j / 3].index_count)
            },
    )
}

/// A model: its geometry buffer once, the first transform slot, then its submeshes.
pub open spec fn model_draws(m: int, subs: Seq<Submesh>, kinds: Seq<PipelineKind>) -> Seq<Command> {
    seq![
        Command::SetVertexBuffer(Geometry::Model(m as usize)),
        Command::SetIndexBuffer(Geometry::Model(m as usize)),
        Command::SetBindGroup(1, Binding::Transform(0)),
    ] + submesh_draws(subs, kinds)
}

pub open spec fn models_draws(models: Seq<Seq<Submesh>>, kinds: Seq<PipelineKind>) -> Seq<Command>
    decreases models.len(),
{
    if models.len() == 0 {
        Seq::empty()
    } else {
        models_draws(models.drop_last(), kinds) + model_draws(models.len() - 1, models.last(), kinds)
    }
}

/// The render pass of a frame: the quads, then the triangles, then each model.
pub open spec fn frame_commands(
    n_quads: nat,
    n_tris: nat,
    models: Seq<Seq<Submesh>>,
    kinds: Seq<PipelineKind>,
) -> Seq<Command> {
    quad_prologue() + quad_draws(n_quads) + triangle_prologue() + triangle_draws(n_quads, n_tris)
        + models_draws(models, kinds)
}

/// The submeshes of every model name a known material.
pub open spec fn materials_known(models: Seq<Seq<Submesh>>, n: nat) -> bool {
    forall|m: int, i: int| 0 <= m < models.len() && 0 <= i < models[m].len() ==> #[trigger] models[m][i].material_id < n
}

pub open spec fn submesh_seqs(models: Seq<Vec<Submesh>>) -> Seq<Seq<Submesh>> {
    models.map_values(|v: Vec<Submesh>| v@)
}

fn push_submesh_draws(out: &mut Vec<Command>, subs: &Vec<Submesh>, kinds: &Vec<PipelineKind>)
    requires
        forall|i: int| 0 <= i < subs@.len() ==> #[trigger] subs@[i].material_id < kinds@.len(),
    ensures
        final(out)@ == old(out)@ + submesh_draws(subs@, kinds@),
{
    let mut i: usize = 0;
    while i < subs.len()
        invariant
            i <= subs@.len(),
            forall|k: int| 0 <= k < subs@.len() ==> #[trigger] subs@[k].material_id < kinds@.len(),
            out@ == old(out)@ + submesh_draws(subs@.subrange(0, i as int), kinds@),
        decreases subs@.len() - i,
    {
        let s = subs[i];
        let ghost before = out@;
        out.push(Command::SetPipeline(kinds[s.material_id]));
        out.push(Command::SetBindGroup(0, Binding::Material(s.material_id)));
        out.push(Command::DrawIndexed(s.first_index, s.index_count));
        proof {
            let a = submesh_draws(subs@.subrange(0, i as int), kinds@);
            let b = submesh_draws(subs@.subrange(0, i + 1), kinds@);
            assert forall|j: int| 0 <= j < 3 * i implies #[trigger] b[j] == a[j] by {
                assert(j / 3 < i) by {
                    assert(j < 3 * i);
                }
            }
            assert(b[3 * i] == Command::SetPipeline(kinds@[s.material_id as int])) by {
                assert((3 * i) % 3 == 0 && (3 * i) / 3 == i) by (nonlinear_arith);
            }
            assert(b[3 * i + 1] == Command::SetBindGroup(0, Binding::Material(s.material_id))) by {
                assert((3 * i + 1) % 3 == 1 && (3 * i + 1) / 3 == i) by (nonlinear_arith);
            }
            assert(b[3 * i + 2] == Command::DrawIndexed(s.first_index, s.index_count)) by {
                assert((3 * i + 2) % 3 == 2 && (3 * i + 2) / 3 == i) by (nonlinear_arith);
            }
            assert(b =~= a.push(Command::SetPipeline(kinds@[s.material_id as int])).push(
                Command::SetBindGroup(0, Binding::Material(s.material_id)),
            ).push(Command::DrawIndexed(s.first_index, s.index_count)));
        }
        i = i + 1;
    }
    assert(subs@.subrange(0, subs@.len() as int) =~= subs@);
}

/// Records the commands of one frame's render pass: `n_quads` quads in
/// transform slots `0..n_quads`, `n_tris` triangles in the slots after them, then
/// each model's submeshes with their materials' pipelines. `kinds[id]` is the
/// pipeline kind of material `id`.
pub fn plan_frame(n_quads: usize, n_tris: usize, models: &Vec<Vec<Submesh>>, kinds: &Vec<PipelineKind>) -> (r: Vec<Command>)
    requires
        n_quads + n_tris <= usize::MAX,
        materials_known(submesh_seqs(models@), kinds@.len()),
    ensures
        r@ == frame_commands(n_quads as nat, n_tris as nat, submesh_seqs(models@), kinds@),
{
    let mut out: Vec<Command> = Vec::new();
    out.push(Command::SetPipeline(PipelineKind::Simple));
    out.push(Command::SetBindGroup(0, Binding::QuadMaterial));
    out.push(Command::SetBindGroup(2, Binding::ViewProjection));
    out.push(Command::SetVertexBuffer(Geometry::Quad));
    out.push(Command::SetIndexBuffer(Geometry::Quad));
    assert(out@ =~= quad_prologue());
    let ghost start = out@;
    let mut i: usize = 0;
    while i < n_quads
        invariant
            i <= n_quads,
            out@ == start + quad_draws(i as nat),
        decreases n_quads - i,
    {
        out.push(Command::SetBindGroup(1, Binding::Transform(i)));
        out.push(Command::DrawIndexed(0, 6));
        proof {
            let a = quad_draws(i as nat);
            let b = quad_draws((i + 1) as nat);
            assert forall|j: int| 0 <= j < 2 * i implies #[trigger] b[j] == a[j] by {}
            assert((2 * i) % 2 == 0 && (2 * i) / 2 == i) by (nonlinear_arith);
            assert((2 * i + 1) % 2 == 1) by (nonlinear_arith);
            assert(b =~= a.push(Command::SetBindGroup(1, Binding::Transform(i))).push(Command::DrawIndexed(0, 6)));
        }
        i = i + 1;
    }
    out.push(Command::SetBindGroup(0, Binding::TriangleMaterial));
    out.push(Command::SetVertexBuffer(Geometry::Triangle));
    let ghost before_tris = out@;
    assert(before_tris =~= start + quad_draws(n_quads as nat) + triangle_prologue());
    let mut t: usize = 0;
    while t < n_tris
        invariant
            t <= n_tris,
            n_quads + n_tris <= usize::MAX,
            out@ == before_tris + triangle_draws(n_quads as nat, t as nat),
        decreases n_tris - t,
    {
        out.push(Command::SetBindGroup(1, Binding::Transform(n_quads + t)));
        out.push(Command::Draw(3));
        proof {
            let a = triangle_draws(n_quads as nat, t as nat);
            let b = triangle_draws(n_quads as nat, (t + 1) as nat);
            assert forall|j: int| 0 <= j < 2 * t implies #[trigger] b[j] == a[j] by {}
            assert((2 * t) % 2 == 0 && (2 * t) / 2 == t) by (nonlinear_arith);
            assert((2 * t + 1) % 2 == 1) by (nonlinear_arith);
            assert(b =~= a.push(Command::SetBindGroup(1, Binding::Transform((n_quads + t) as usize))).push(Command::Draw(3)));
        }
        t = t + 1;
    }
    let ghost before_models = out@;
    let ghost ms = submesh_seqs(models@);
    assert(ms.subrange(0, 0) =~= Seq::<Seq<Submesh>>::empty());
    let mut m: usize = 0;
    while m < models.len()
        invariant
            m <= models@.len(),
            ms == submesh_seqs(models@),
            materials_known(ms, kinds@.len()),
            out@ == before_models + models_draws(ms.subrange(0, m as int), kinds@),
        decreases models@.len() - m,
    {
        out.push(Command::SetVertexBuffer(Geometry::Model(m)));
        out.push(Command::SetIndexBuffer(Geometry::Model(m)));
        out.push(Command::SetBindGroup(1, Binding::Transform(0)));
        assert(models@[m as int]@ == ms[m as int]);
        assert forall|k: int| 0 <= k < models@[m as int]@.len() implies #[trigger] models@[m as int]@[k].material_id < kinds@.len() by {
            assert(ms[m as int][k] == models@[m as int]@[k]);
        }
        let ghost before = out@;
        push_submesh_draws(&mut out, &models[m], kinds);
        proof {
            let pre = ms.subrange(0, m as int);
            let post = ms.subrange(0, m + 1);
            assert(post.drop_last() =~= pre);
            assert(post.last() == ms[m as int]);
            assert(out@ =~= before_models + models_draws(post, kinds@));
        }
        m = m + 1;
    }
    assert(ms.subrange(0, ms.len() as int) =~= ms);
    out
}


pub open spec fn is_draw(c: Command) -> bool {
    c is Draw || c is DrawIndexed
}

/// The number of draw commands in a command list.
pub open spec fn draw_count(s: Seq<Command>) -> nat
    decreases s.len(),
{
    if s.len() == 0 {
        0
    } else {
        draw_count(s.drop_last()) + if is_draw(s.last()) {
            1nat
        } else {
            0nat
        }
    }
}

/// The number of submeshes over all models.
pub open spec fn submesh_total(models: Seq<Seq<Submesh>>) -> nat
    decreases models.len(),
{
    if models.len() == 0 {
        0
    } else {
        submesh_total(models.drop_last()) + models.last().len()
    }
}

proof fn lemma_draw_count_concat(a: Seq<Command>, b: Seq<Command>)
    ensures
        draw_count(a + b) == draw_count(a) + draw_count(b),
    decreases b.len(),
{
    if b.len() == 0 {
        assert(a + b =~= a);
    } else {
        assert((a + b).drop_last() =~= a + b.drop_last());
        assert((a + b).last() == b.last());
        lemma_draw_count_concat(a, b.drop_last());
    }
}

proof fn lemma_draw_count_small(x: Command, y: Command, z: Command)
    ensures
        draw_count(seq![x]) == (if is_draw(x) { 1nat } else { 0nat }),
        draw_count(seq![x, y]) == draw_count(seq![x]) + (if is_draw(y) { 1nat } else { 0nat }),
        draw_count(seq![x, y, z]) == draw_count(seq![x, y]) + (if is_draw(z) { 1nat } else { 0nat }),
{
    assert(seq![x].drop_last() =~= Seq::<Command>::empty());
    assert(draw_count(Seq::<Command>::empty()) == 0);
    assert(seq![x, y].drop_last() =~= seq![x]);
    assert(seq![x, y, z].drop_last() =~= seq![x, y]);
}

/// A list without draw commands counts none.
proof fn lemma_no_draws(s: Seq<Command>)
    requires
        forall|i: int| 0 <= i < s.len() ==> !is_draw(#[trigger] s[i]),
    ensures
        draw_count(s) == 0,
    decreases s.len(),
{
    if s.len() > 0 {
        assert forall|i: int| 0 <= i < s.drop_last().len() implies !is_draw(#[trigger] s.drop_last()[i]) by {
            assert(s.drop_last()[i] == s[i]);
        }
        lemma_no_draws(s.drop_last());
        assert(!is_draw(s[s.len() - 1]));
    }
}

proof fn lemma_quad_draw_count(n: nat)
    ensures
        draw_count(quad_draws(n)) == n,
    decreases n,
{
    if n > 0 {
        let a = quad_draws((n - 1) as nat);
        let x = Command::SetBindGroup(1, Binding::Transform((n - 1) as usize));
        let y = Command::DrawIndexed(0, 6);
        assert(((2 * (n - 1)) as int) % 2 == 0 && ((2 * (n - 1)) as int) / 2 == n - 1) by (nonlinear_arith);
        assert(((2 * (n - 1) + 1) as int) % 2 == 1) by (nonlinear_arith);
        assert(quad_draws(n) =~= a + seq![x, y]);
        lemma_quad_draw_count((n - 1) as nat);
        lemma_draw_count_concat(a, seq![x, y]);
        lemma_draw_count_small(x, y, y);
    }
}

proof fn lemma_triangle_draw_count(q: nat, n: nat)
    ensures
        draw_count(triangle_draws(q, n)) == n,
    decreases n,
{
    if n > 0 {
        let a = triangle_draws(q, (n - 1) as nat);
        let x = Command::SetBindGroup(1, Binding::Transform((q + n - 1) as usize));
        let y = Command::Draw(3);
        assert(((2 * (n - 1)) as int) % 2 == 0 && ((2 * (n - 1)) as int) / 2 == n - 1) by (nonlinear_arith);
        assert(((2 * (n - 1) + 1) as int) % 2 == 1) by (nonlinear_arith);
        assert(triangle_draws(q, n) =~= a + seq![x, y]);
        lemma_triangle_draw_count(q, (n - 1) as nat);
        lemma_draw_count_concat(a, seq![x, y]);
        lemma_draw_count_small(x, y, y);
    }
}

proof fn lemma_submesh_draw_count(subs: Seq<Submesh>, kinds: Seq<PipelineKind>)
    ensures
        draw_count(submesh_draws(subs, kinds)) == subs.len(),
    decreases subs.len(),
{
    if subs.len() > 0 {
        let k = subs.len() - 1;
        let s = subs[k];
        let a = submesh_draws(subs.drop_last(), kinds);
        let x = Command::SetPipeline(kinds[s.material_id as int]);
        let y = Command::SetBindGroup(0, Binding::Material(s.material_id));
        let z = Command::DrawIndexed(s.first_index, s.index_count);
        assert((3 * k) % 3 == 0 && (3 * k) / 3 == k) by (nonlinear_arith);
        assert((3 * k + 1) % 3 == 1 && (3 * k + 1) / 3 == k) by (nonlinear_arith);
        assert((3 * k + 2) % 3 == 2 && (3 * k + 2) / 3 == k) by (nonlinear_arith);
        assert forall|j: int| 0 <= j < 3 * k implies #[trigger] submesh_draws(subs, kinds)[j] == a[j] by {
            assert(j / 3 < k) by {
                assert(j < 3 * k);
            }
        }
        assert(submesh_draws(subs, kinds) =~= a + seq![x, y, z]);
        lemma_submesh_draw_count(subs.drop_last(), kinds);
        lemma_draw_count_concat(a, seq![x, y, z]);
        lemma_draw_count_small(x, y, z);
    }
}

proof fn lemma_models_draw_count(models: Seq<Seq<Submesh>>, kinds: Seq<PipelineKind>)
    ensures
        draw_count(models_draws(models, kinds)) == submesh_total(models),
    decreases models.len(),
{
    if models.len() > 0 {
        let m = models.len() - 1;
        let head = seq![
            Command::SetVertexBuffer(Geometry::Model(m as usize)),
            Command::SetIndexBuffer(Geometry::Model(m as usize)),
            Command::SetBindGroup(1, Binding::Transform(0)),
        ];
        lemma_models_draw_count(models.drop_last(), kinds);
        lemma_submesh_draw_count(models.last(), kinds);
        assert forall|i: int| 0 <= i < head.len() implies !is_draw(#[trigger] head[i]) by {}
        lemma_no_draws(head);
        lemma_draw_count_concat(head, submesh_draws(models.last(), kinds));
        lemma_draw_count_concat(models_draws(models.drop_last(), kinds), model_draws(m, models.last(), kinds));
    }
}

/// A frame's render pass holds exactly one draw per quad, one per triangle and
/// one per submesh of each model: nothing is drawn twice and nothing is left out.
pub proof fn lemma_frame_draw_count(
    n_quads: nat,
    n_tris: nat,
    models: Seq<Seq<Submesh>>,
    kinds: Seq<PipelineKind>,
)
    ensures
        draw_count(frame_commands(n_quads, n_tris, models, kinds)) == n_quads + n_tris + submesh_total(models),
{
    let p = quad_prologue();
    let t = triangle_prologue();
    assert forall|i: int| 0 <= i < p.len() implies !is_draw(#[trigger] p[i]) by {}
    assert forall|i: int| 0 <= i < t.len() implies !is_draw(#[trigger] t[i]) by {}
    lemma_no_draws(p);
    lemma_no_draws(t);
    lemma_quad_draw_count(n_quads);
    lemma_triangle_draw_count(n_quads, n_tris);
    lemma_models_draw_count(models, kinds);
    let a = p + quad_draws(n_quads);
    let b = a + t;
    let c = b + triangle_draws(n_quads, n_tris);
    lemma_draw_count_concat(p, quad_draws(n_quads));
    lemma_draw_count_concat(a, t);
    lemma_draw_count_concat(b, triangle_draws(n_quads, n_tris));
    lemma_draw_count_concat(c, models_draws(models, kinds));
}

} // verus!
