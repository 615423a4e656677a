use vstd::prelude::*;

use crate::material::PipelineKind;

verus! {

/// A family of bind-group layouts.
#[derive(Clone, Copy, Debug, PartialEq, Eq, Structural)]
pub enum BindScope {
    Texture,
    Color,
    UBO,
}

/// One binding slot of a bind-group layout, in binding order.
#[derive(Clone, Copy, Debug, PartialEq, Eq, Structural)]
pub enum BindingKind {
    /// A sampled 2D texture, seen by the fragment stage.
    Texture2d,
    /// A filtering sampler, seen by the fragment stage.
    Sampler,
    /// A uniform of four floats.
    Vec4Uniform,
    /// A uniform 4x4 matrix.
    Mat4Uniform,
}

/// The vertex layout a pipeline reads.
#[derive(Clone, Copy, Debug, PartialEq, Eq, Structural)]
pub enum VertexLayout {
    /// Position and color, three floats each.
    Primitive,
    /// Position, texture coordinate and normal.
    Model,
}

/// The shader source of a pipeline; each has entry points `vs_main` and `fs_main`.
#[derive(Clone, Copy, Debug, PartialEq, Eq, Structural)]
pub enum ShaderId {
    Primitive,
    ColoredModel,
    TexturedModel,
}

/// Accumulates binding slots; each `build` hands out the slots added so far.
pub struct LayoutBuilder {
    entries: Vec<BindingKind>,
}

impl LayoutBuilder {
    pub closed spec fn view(&self) -> Seq<BindingKind> {
        self.entries@
    }

    pub fn new() -> (b: LayoutBuilder)
        ensures
            b.view() == Seq::<BindingKind>::empty(),
    {
        LayoutBuilder { entries: Vec::new() }
    }

    /// Adds a texture and its sampler.
    pub fn add_texture(&mut self)
        ensures
            final(self).view() == old(self).view().push(BindingKind::Texture2d).push(BindingKind::Sampler),
    {
        self.entries.push(BindingKind::Texture2d);
        self.entries.push(BindingKind::Sampler);
    }

    /// Adds a four-float uniform.
    pub fn add_vec4(&mut self)
        ensures
            final(self).view() == old(self).view().push(BindingKind::Vec4Uniform),
    {
        self.entries.push(BindingKind::Vec4Uniform);
    }

    /// Adds a matrix uniform.
    pub fn add_mat4(&mut self)
        ensures
            final(self).view() == old(self).view().push(BindingKind::Mat4Uniform),
    {
        self.entries.push(BindingKind::Mat4Uniform);
    }

    /// The layout of the slots added so far; the builder keeps them.
    pub fn build(&self) -> (r: Vec<BindingKind>)
        ensures
            r@ == self.view(),
    {
        let mut r: Vec<BindingKind> = Vec::new();
        let mut i: usize = 0;
        while i < self.entries.len()
            invariant
                i <= self.entries@.len(),
                r@ == self.entries@.subrange(0, i as int),
            decreases self.entries@.len() - i,
        {
            r.push(self.entries[i]);
            i = i + 1;
            assert(r@ =~= self.entries@.subrange(0, i as int));
        }
        assert(self.entries@.subrange(0, self.entries@.len() as int) =~= self.entries@);
        r
    }
}

pub open spec fn texture_layout() -> Seq<BindingKind> {
    seq![BindingKind::Texture2d, BindingKind::Sampler]
}

pub open spec fn color_layout() -> Seq<BindingKind> {
    texture_layout().push(BindingKind::Vec4Uniform)
}

pub open spec fn ubo_layout() -> Seq<BindingKind> {
    color_layout().push(BindingKind::Mat4Uniform)
}

pub open spec fn layout_of(scope: BindScope) -> Seq<BindingKind> {
    match scope {
        BindScope::Texture => texture_layout(),
        BindScope::Color => color_layout(),
        BindScope::UBO => ubo_layout(),
    }
}

/// The three bind-group layouts, one per scope.
pub struct BindGroupLayouts {
    pub texture: Vec<BindingKind>,
    pub color: Vec<BindingKind>,
    pub ubo: Vec<BindingKind>,
}

impl BindGroupLayouts {
    pub open spec fn get_spec(&self, scope: BindScope) -> Seq<BindingKind> {
        match scope {
            BindScope::Texture => self.texture@,
            BindScope::Color => self.color@,
            BindScope::UBO => self.ubo@,
        }
    }

    pub fn get(&self, scope: BindScope) -> (r: &Vec<BindingKind>)
        ensures
            r@ == self.get_spec(scope),
    {
        match scope {
            BindScope::Texture => &self.texture,
            BindScope::Color => &self.color,
            BindScope::UBO => &self.ubo,
        }
    }
}

/// Builds the layouts by extending one builder: texture, then a color uniform,
/// then a matrix uniform, building after each step. So the texture layout is a
/// strict prefix of the color layout, which is a strict prefix of the UBO layout.
pub fn build_bind_group_layouts() -> (l: BindGroupLayouts)
    ensures
        forall|s: BindScope| #[trigger] l.get_spec(s) == layout_of(s),
        l.texture@.len() < l.color@.len() < l.ubo@.len(),
        l.color@.subrange(0, l.texture@.len() as int) == l.texture@,
        l.ubo@.subrange(0, l.color@.len() as int) == l.color@,
{
    let mut builder = LayoutBuilder::new();
    builder.add_texture();
    let texture = builder.build();
    builder.add_vec4();
    let color = builder.build();
    builder.add_mat4();
    let ubo = builder.build();
    assert(texture@ =~= texture_layout());
    assert(color@ =~= color_layout());
    assert(ubo@ =~= ubo_layout());
    assert(color@.subrange(0, 2) =~= texture@);
    assert(ubo@.subrange(0, 3) =~= color@);
    BindGroupLayouts { texture, color, ubo }
}

/// How a pipeline is built: its shader, its vertex layout, and the layout of
/// each of its three bind groups (material, per-object transform,
/// view-projection).
#[derive(Clone, Copy, Debug, PartialEq, Eq, Structural)]
pub struct PipelineDesc {
    pub shader: ShaderId,
    pub vertex_layout: VertexLayout,
    pub material_group: BindScope,
    pub transform_group: BindScope,
    pub view_projection_group: BindScope,
}

pub open spec fn desc_of(kind: PipelineKind) -> PipelineDesc {
    match kind {
        PipelineKind::Simple => PipelineDesc {
            shader: ShaderId::Primitive,
            vertex_layout: VertexLayout::Primitive,
            material_group: BindScope::Texture,
            transform_group: BindScope::UBO,
            view_projection_group: BindScope::UBO,
        },
        PipelineKind::ColoredModel => PipelineDesc {
            shader: ShaderId::ColoredModel,
            vertex_layout: VertexLayout::Model,
            material_group: BindScope::Color,
            transform_group: BindScope::UBO,
            view_projection_group: BindScope::UBO,
        },
        PipelineKind::TexturedModel => PipelineDesc {
            shader: ShaderId::TexturedModel,
            vertex_layout: VertexLayout::Model,
            material_group: BindScope::Texture,
            transform_group: BindScope::UBO,
            view_projection_group: BindScope::UBO,
        },
    }
}

/// The recipe of the pipeline of a kind.
pub fn pipeline_desc(kind: PipelineKind) -> (d: PipelineDesc)
    ensures
        d == desc_of(kind),
{
    match kind {
        PipelineKind::Simple => PipelineDesc {
            shader: ShaderId::Primitive,
            vertex_layout: VertexLayout::Primitive,
            material_group: BindScope::Texture,
            transform_group: BindScope::UBO,
            view_projection_group: BindScope::UBO,
        },
        PipelineKind::ColoredModel => PipelineDesc {
            shader: ShaderId::ColoredModel,
            vertex_layout: VertexLayout::Model,
            material_group: BindScope::Color,
            transform_group: BindScope::UBO,
            view_projection_group: BindScope::UBO,
        },
        PipelineKind::TexturedModel => PipelineDesc {
            shader: ShaderId::TexturedModel,
            vertex_layout: VertexLayout::Model,
            material_group: BindScope::Texture,
            transform_group: BindScope::UBO,
            view_projection_group: BindScope::UBO,
        },
    }
}

/// One built pipeline per kind, fixed after construction.
pub struct PipelineCache<P> {
    simple: P,
    colored_model: P,
    textured_model: P,
}

impl<P> PipelineCache<P> {
    pub closed spec fn get_spec(&self, kind: PipelineKind) -> P {
        match kind {
            PipelineKind::Simple => self.simple,
            PipelineKind::ColoredModel => self.colored_model,
            PipelineKind::TexturedModel => self.textured_model,
        }
    }

    pub fn new(simple: P, colored_model: P, textured_model: P) -> (c: Self)
        ensures
            c.get_spec(PipelineKind::Simple) == simple,
            c.get_spec(PipelineKind::ColoredModel) == colored_model,
            c.get_spec(PipelineKind::TexturedModel) == textured_model,
    {
        PipelineCache { simple, colored_model, textured_model }
    }

    /// The pipeline of a kind.
    pub fn get(&self, kind: PipelineKind) -> (p: &P)
        ensures
            *p == self.get_spec(kind),
    {
        match kind {
            PipelineKind::Simple => &self.simple,
            PipelineKind::ColoredModel => &self.colored_model,
            PipelineKind::TexturedModel => &self.textured_model,
        }
    }
}


/// The format of one vertex attribute.
#[derive(Clone, Copy, Debug, PartialEq, Eq, Structural)]
pub enum AttributeFormat {
    Float32x2,
    Float32x3,
}

/// One vertex attribute: its shader location, its byte offset in the vertex, and
/// its format.
#[derive(Clone, Copy, Debug, PartialEq, Eq, Structural)]
pub struct VertexAttribute {
    pub location: u32,
    pub offset: u64,
    pub format: AttributeFormat,
}

pub open spec fn attribute_size(f: AttributeFormat) -> nat {
    match f {
        AttributeFormat::Float32x2 => 8,
        AttributeFormat::Float32x3 => 12,
    }
}

/// The attributes of a layout, in location order: a primitive vertex is
/// position then color; a model vertex is position, texture coordinate, normal.
pub open spec fn attributes_of(l: VertexLayout) -> Seq<VertexAttribute> {
    match l {
        VertexLayout::Primitive => seq![
            VertexAttribute { location: 0, offset: 0, format: AttributeFormat::Float32x3 },
            VertexAttribute { location: 1, offset: 12, format: AttributeFormat::Float32x3 },
        ],
        VertexLayout::Model => seq![
            VertexAttribute { location: 0, offset: 0, format: AttributeFormat::Float32x3 },
            VertexAttribute { location: 1, offset: 12, format: AttributeFormat::Float32x2 },
            VertexAttribute { location: 2, offset: 20, format: AttributeFormat::Float32x3 },
        ],
    }
}

/// Bytes from one vertex to the next.
pub open spec fn stride_of(l: VertexLayout) -> u64 {
    match l {
        VertexLayout::Primitive => 24,
        VertexLayout::Model => 32,
    }
}

/// A vertex buffer layout: the stride and the attributes.
pub fn vertex_layout(l: VertexLayout) -> (r: (u64, Vec<VertexAttribute>))
    ensures
        r.0 == stride_of(l),
        r.1@ == attributes_of(l),
        forall|i: int| 0 <= i < r.1@.len() - 1 ==> #[trigger] r.1@[i + 1].offset == r.1@[i].offset
            + attribute_size(r.1@[i].format),
        r.1@.last().offset + attribute_size(r.1@.last().format) == r.0,
{
    match l {
        VertexLayout::Primitive => {
            let v = vec![
                VertexAttribute { location: 0, offset: 0, format: AttributeFormat::Float32x3 },
                VertexAttribute { location: 1, offset: 12, format: AttributeFormat::Float32x3 },
            ];
            assert(v@ =~= attributes_of(l));
            (24, v)
        },
        VertexLayout::Model => {
            let v = vec![
                VertexAttribute { location: 0, offset: 0, format: AttributeFormat::Float32x3 },
                VertexAttribute { location: 1, offset: 12, format: AttributeFormat::Float32x2 },
                VertexAttribute { location: 2, offset: 20, format: AttributeFormat::Float32x3 },
            ];
            assert(v@ =~= attributes_of(l));
            (32, v)
        },
    }
}

} // verus!
