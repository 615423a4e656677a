use rusty_knight_core::frame::{
    plan_frame, AcquireStatus, Binding, Command, FrameOutcome, FrameRenderer, Geometry,
    SurfaceConfig, SurfaceState,
};
use rusty_knight_core::material::PipelineKind;
use rusty_knight_core::obj_loader::Submesh;
use rusty_knight_core::pipeline::{
    build_bind_group_layouts, pipeline_desc, BindScope, BindingKind, LayoutBuilder,
    PipelineCache, ShaderId, VertexLayout,
};
use rusty_knight_core::pipeline::{vertex_layout, AttributeFormat, VertexAttribute};
use rusty_knight_core::transform_pool::TransformUniformPool;

fn draws(cmds: &[Command]) -> usize {
    cmds.iter()
        .filter(|c| matches!(c, Command::Draw(_) | Command::DrawIndexed(_, _)))
        .count()
}

#[test]
fn resize_applies_positive_sizes() {
    let mut r = FrameRenderer::new(800, 600);
    assert!(r.resize(1024, 768));
    assert_eq!((r.width, r.height), (1024, 768));
    assert_eq!(r.config, SurfaceConfig { width: 1024, height: 768 });
    assert_eq!(r.depth, r.config);
}

#[test]
fn resize_ignores_zero_or_negative_sizes() {
    let mut r = FrameRenderer::new(800, 600);
    let before = r;
    assert!(!r.resize(0, 600));
    assert!(!r.resize(800, 0));
    assert!(!r.resize(-5, -5));
    assert_eq!(r, before);
}

#[test]
fn surface_lost_then_rebuild_then_present() {
    let mut r = FrameRenderer::new(640, 480);
    assert!(r.can_render());
    assert_eq!(r.render_frame(AcquireStatus::Lost), FrameOutcome::SurfaceLost);
    assert_eq!(r.state, SurfaceState::NeedsSurfaceRebuild);
    assert!(!r.can_render());
    assert!(r.rebuild_surface());
    assert!(r.resize(640, 480));
    assert!(r.can_render());
    assert_eq!(r.config, SurfaceConfig { width: 640, height: 480 });
    assert_eq!(r.render_frame(AcquireStatus::Acquired), FrameOutcome::Presented);
    assert_eq!(r.state, SurfaceState::Ready);
}

#[test]
fn outdated_surface_is_transient_other_errors_are_not() {
    let mut r = FrameRenderer::new(10, 10);
    assert_eq!(r.render_frame(AcquireStatus::Outdated), FrameOutcome::SurfaceLost);
    let mut r = FrameRenderer::new(10, 10);
    assert_eq!(r.render_frame(AcquireStatus::Timeout), FrameOutcome::Fatal(AcquireStatus::Timeout));
    assert_eq!(
        r.render_frame(AcquireStatus::OutOfMemory),
        FrameOutcome::Fatal(AcquireStatus::OutOfMemory)
    );
    assert_eq!(r.render_frame(AcquireStatus::Other), FrameOutcome::Fatal(AcquireStatus::Other));
    assert_eq!(r.state, SurfaceState::Ready);
}

#[test]
fn one_quad_frame_records_one_draw() {
    let mut r = FrameRenderer::new(800, 600);
    assert!(r.can_render());
    assert_eq!(r.render_frame(AcquireStatus::Acquired), FrameOutcome::Presented);
    let cmds = plan_frame(1, 0, &Vec::new(), &Vec::new());
    assert_eq!(draws(&cmds), 1);
    assert_eq!(
        cmds,
        vec![
            Command::SetPipeline(PipelineKind::Simple),
            Command::SetBindGroup(0, Binding::QuadMaterial),
            Command::SetBindGroup(2, Binding::ViewProjection),
            Command::SetVertexBuffer(Geometry::Quad),
            Command::SetIndexBuffer(Geometry::Quad),
            Command::SetBindGroup(1, Binding::Transform(0)),
            Command::DrawIndexed(0, 6),
            Command::SetBindGroup(0, Binding::TriangleMaterial),
            Command::SetVertexBuffer(Geometry::Triangle),
        ]
    );
}

#[test]
fn frame_plan_orders_quads_triangles_models() {
    let models = vec![vec![
        Submesh { first_index: 0, index_count: 3, material_id: 1 },
        Submesh { first_index: 3, index_count: 6, material_id: 0 },
    ]];
    let kinds = vec![PipelineKind::ColoredModel, PipelineKind::TexturedModel];
    let cmds = plan_frame(2, 1, &models, &kinds);
    assert_eq!(draws(&cmds), 2 + 1 + 2);
    assert_eq!(cmds[5], Command::SetBindGroup(1, Binding::Transform(0)));
    assert_eq!(cmds[7], Command::SetBindGroup(1, Binding::Transform(1)));
    assert_eq!(cmds[11], Command::SetBindGroup(1, Binding::Transform(2)));
    assert_eq!(cmds[12], Command::Draw(3));
    assert_eq!(
        cmds[13..],
        [
            Command::SetVertexBuffer(Geometry::Model(0)),
            Command::SetIndexBuffer(Geometry::Model(0)),
            Command::SetBindGroup(1, Binding::Transform(0)),
            Command::SetPipeline(PipelineKind::TexturedModel),
            Command::SetBindGroup(0, Binding::Material(1)),
            Command::DrawIndexed(0, 3),
            Command::SetPipeline(PipelineKind::ColoredModel),
            Command::SetBindGroup(0, Binding::Material(0)),
            Command::DrawIndexed(3, 6),
        ]
    );
}

#[test]
fn transform_slots_do_not_alias() {
    let mut pool: TransformUniformPool<[f32; 16]> = TransformUniformPool::new();
    assert_eq!(pool.capacity(), 0);
    assert!(pool.ensure_capacity(3, [0.0; 16]));
    let mats: Vec<[f32; 16]> = (0..3).map(|i| [i as f32 + 1.0; 16]).collect();
    for (i, m) in mats.iter().enumerate() {
        pool.upload(i, *m);
    }
    for (i, m) in mats.iter().enumerate() {
        assert_eq!(pool.get(i), *m);
    }
    assert!(!pool.ensure_capacity(3, [9.0; 16]));
    assert_eq!(pool.get(2), mats[2]);
    assert!(pool.ensure_capacity(2, [9.0; 16]));
    assert_eq!(pool.capacity(), 2);
    assert_eq!(pool.get(0), [9.0; 16]);
}

#[test]
fn layouts_extend_one_another() {
    let l = build_bind_group_layouts();
    assert_eq!(*l.get(BindScope::Texture), vec![BindingKind::Texture2d, BindingKind::Sampler]);
    assert_eq!(
        *l.get(BindScope::Color),
        vec![BindingKind::Texture2d, BindingKind::Sampler, BindingKind::Vec4Uniform]
    );
    assert_eq!(
        *l.get(BindScope::UBO),
        vec![
            BindingKind::Texture2d,
            BindingKind::Sampler,
            BindingKind::Vec4Uniform,
            BindingKind::Mat4Uniform
        ]
    );
    let mut b = LayoutBuilder::new();
    assert!(b.build().is_empty());
    b.add_mat4();
    assert_eq!(b.build(), vec![BindingKind::Mat4Uniform]);
}

#[test]
fn pipelines_select_layouts_by_kind() {
    let s = pipeline_desc(PipelineKind::Simple);
    assert_eq!(s.shader, ShaderId::Primitive);
    assert_eq!(s.vertex_layout, VertexLayout::Primitive);
    assert_eq!(s.material_group, BindScope::Texture);
    let c = pipeline_desc(PipelineKind::ColoredModel);
    assert_eq!(c.vertex_layout, VertexLayout::Model);
    assert_eq!(c.material_group, BindScope::Color);
    assert_eq!(c.transform_group, BindScope::UBO);
    let t = pipeline_desc(PipelineKind::TexturedModel);
    assert_eq!(t.shader, ShaderId::TexturedModel);
    assert_eq!(t.material_group, BindScope::Texture);
    assert_eq!(t.view_projection_group, BindScope::UBO);
    let cache = PipelineCache::new("simple", "colored", "textured");
    assert_eq!(*cache.get(PipelineKind::ColoredModel), "colored");
    assert_eq!(*cache.get(PipelineKind::Simple), "simple");
}

#[test]
fn vertex_layouts_pack_attributes() {
    let (stride, attrs) = vertex_layout(VertexLayout::Primitive);
    assert_eq!(stride, 24);
    assert_eq!(attrs[1], VertexAttribute { location: 1, offset: 12, format: AttributeFormat::Float32x3 });
    let (stride, attrs) = vertex_layout(VertexLayout::Model);
    assert_eq!(stride, 32);
    assert_eq!(attrs.len(), 3);
    assert_eq!(attrs[1].format, AttributeFormat::Float32x2);
    assert_eq!(attrs[2].offset, 20);
}

#[test]
fn instances_take_stable_slots_quads_first() {
    let mut pool: TransformUniformPool<u32> = TransformUniformPool::new();
    pool.ensure_capacity(5, 0);
    pool.upload_instances(&vec![10, 11], &vec![20, 21]);
    assert_eq!(pool.get(0), 10);
    assert_eq!(pool.get(1), 11);
    assert_eq!(pool.get(2), 20);
    assert_eq!(pool.get(3), 21);
    assert_eq!(pool.get(4), 0);
    pool.upload_instances(&vec![12, 13], &vec![22, 23]);
    assert_eq!(pool.get(2), 22);
    assert_eq!(pool.get(1), 13);
}
