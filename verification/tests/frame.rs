use hex_instance::instance_drawable::{BatchDraw, Command, Descriptors, Frame};
use hex_instance::pipeline::{CompareOp, PipelineHandle, PipelineInfo, PipelineTable, Viewport};
use hex_instance::vertex::ViewUniform;
use hex_instance::{
    Camera, Entity, Instance, InstanceData, InstanceDrawable, InstanceEntity, InstanceRenderer,
    Pipeline, Shape, Transform,
};

const SIZE: Viewport = Viewport {
    offset: [0, 0],
    extent: [0x4420_0000, 0x43f0_0000],
    depth_range: [0xbf80_0000, 0x3f80_0000],
};

fn bits3(m: [[f32; 3]; 3]) -> [[u32; 3]; 3] {
    m.map(|row| row.map(f32::to_bits))
}

fn bits4(m: [[f32; 4]; 4]) -> [[u32; 4]; 4] {
    m.map(|row| row.map(f32::to_bits))
}

fn placed(x: f32, y: f32) -> [[u32; 3]; 3] {
    bits3([[1.0, 0.0, x], [0.0, 1.0, y], [0.0, 0.0, 1.0]])
}

fn projection() -> [[u32; 4]; 4] {
    bits4([
        [2.0, 0.0, 0.0, -1.0],
        [0.0, 2.0, 0.0, -1.0],
        [0.0, 0.0, 0.5, 0.5],
        [0.0, 0.0, 0.0, 1.0],
    ])
}

fn camera() -> Entity {
    Entity {
        camera: Some(Camera::new(projection(), true)),
        transform: Some(Transform::new(placed(3.0, 4.0), true)),
        instance: None,
    }
}

fn pipeline(id: usize) -> Pipeline {
    Pipeline { id, vertex: 2 * id, fragment: 2 * id + 1 }
}

fn sprite(shape: usize, texture: usize, pipeline_id: usize, layer: i32) -> Entity {
    Entity {
        camera: None,
        transform: Some(Transform::new(placed(layer as f32, shape as f32), true)),
        instance: Some(Instance::new(
            Shape { id: shape, vertices: 4 + shape as u64 },
            texture,
            pipeline(pipeline_id),
            [1.0f32, 0.5, 0.25, 1.0].map(f32::to_bits),
            layer,
            true,
        )),
    }
}

fn kinds(commands: &[Command]) -> Vec<&'static str> {
    commands
        .iter()
        .map(|c| match c {
            Command::CreatePipeline { .. } => "create",
            Command::BindPipeline { .. } => "pipeline",
            Command::BindDescriptorSet { .. } => "set",
            Command::BindVertexBuffers { .. } => "buffers",
            Command::Draw { .. } => "draw",
        })
        .collect()
}

fn builds(draws: &[BatchDraw]) -> Vec<bool> {
    draws.iter().map(|d| d.create.is_some()).collect()
}

#[test]
fn the_viewport_is_640_by_480() {
    assert_eq!(SIZE.extent.map(f32::from_bits), [640.0, 480.0]);
    assert_eq!(SIZE.depth_range.map(f32::from_bits), [-1.0, 1.0]);
}

#[test]
fn without_a_camera_nothing_is_drawn() {
    let mut renderer = InstanceRenderer::new(CompareOp::LessOrEqual);
    let table = vec![sprite(1, 1, 1, 0), sprite(2, 1, 1, 1)];
    assert!(renderer.draw(&table, false, SIZE).is_empty());
    assert!(renderer.draw(&table, true, SIZE).is_empty());
    assert!(renderer.pipelines().get(1).is_none());
}

#[test]
fn an_inactive_camera_is_no_camera() {
    let mut renderer = InstanceRenderer::new(CompareOp::LessOrEqual);
    let mut off = camera();
    off.camera.as_mut().unwrap().active = false;
    let mut unplaced = camera();
    unplaced.transform.as_mut().unwrap().active = false;
    let table = vec![off, unplaced, sprite(1, 1, 1, 0)];
    assert!(renderer.draw(&table, false, SIZE).is_empty());
}

#[test]
fn a_camera_without_sprites_draws_nothing() {
    let mut renderer = InstanceRenderer::new(CompareOp::LessOrEqual);
    assert!(renderer.draw(&vec![camera()], true, SIZE).is_empty());
    assert!(renderer.draw(&Vec::new(), true, SIZE).is_empty());
}

#[test]
fn a_camera_that_is_a_sprite_is_drawn_too() {
    let mut both = sprite(1, 1, 1, 0);
    both.camera = Some(Camera::new(projection(), true));
    let mut renderer = InstanceRenderer::new(CompareOp::LessOrEqual);
    let draws = renderer.draw(&vec![both], false, SIZE);
    assert_eq!(draws.len(), 1);
    assert_eq!(draws[0].view.camera_transform, both.transform.unwrap().matrix);
}

#[test]
fn a_draw_holds_what_its_batch_needs() {
    let mut renderer = InstanceRenderer::new(CompareOp::LessOrEqual);
    let table = vec![sprite(5, 6, 7, 3), camera(), sprite(5, 6, 7, 3)];
    let draws = renderer.draw(&table, false, SIZE);
    assert_eq!(draws.len(), 1);
    let d = &draws[0];
    assert_eq!(d.pipeline, PipelineHandle { pipeline: 7, build: 1 });
    assert_eq!(
        d.view,
        ViewUniform { camera_transform: placed(3.0, 4.0), camera_proj: projection(), layer: 3 }
    );
    assert_eq!(d.texture, 6);
    assert_eq!(d.shape, 5);
    assert_eq!(d.vertex_count, 9);
    assert_eq!(d.instance_count, 2);
    let expected = InstanceData {
        color: [1.0f32, 0.5, 0.25, 1.0].map(f32::to_bits),
        transform_x: [1.0f32, 0.0, 3.0].map(f32::to_bits),
        transform_y: [0.0f32, 1.0, 5.0].map(f32::to_bits),
        transform_z: [0.0f32, 0.0, 1.0].map(f32::to_bits),
    };
    assert_eq!(d.instances, vec![expected, expected]);
    let info = d.create.unwrap();
    assert_eq!(info, PipelineInfo::new(14, 15, SIZE, CompareOp::LessOrEqual));
}

#[test]
fn the_steps_of_a_draw_come_in_one_order() {
    let mut renderer = InstanceRenderer::new(CompareOp::Less);
    let table = vec![camera(), sprite(5, 6, 7, 3), sprite(5, 6, 7, 3), sprite(5, 6, 7, 3)];
    let first = renderer.draw(&table, false, SIZE);
    let handle = first[0].pipeline;
    assert_eq!(
        first[0].commands(),
        vec![
            Command::CreatePipeline { pipeline: handle },
            Command::BindPipeline { pipeline: handle },
            Command::BindDescriptorSet { set: 0, descriptors: Descriptors::View { binding: 0 } },
            Command::BindDescriptorSet {
                set: 1,
                descriptors: Descriptors::Texture {
                    texture: 6,
                    sampler_binding: 0,
                    texture_binding: 1,
                },
            },
            Command::BindVertexBuffers { first_slot: 0, shape: 5 },
            Command::Draw {
                vertex_count: 9,
                instance_count: 3,
                first_vertex: 0,
                first_instance: 0,
            },
        ]
    );
    let second = renderer.draw(&table, false, SIZE);
    assert_eq!(second[0].pipeline, handle);
    assert_eq!(kinds(&second[0].commands()), vec!["pipeline", "set", "set", "buffers", "draw"]);
    assert_eq!(second[0].commands()[0], Command::BindPipeline { pipeline: handle });
}

#[test]
fn draws_follow_the_batches() {
    let mut renderer = InstanceRenderer::new(CompareOp::LessOrEqual);
    let table = vec![
        sprite(1, 1, 1, 2),
        sprite(1, 1, 1, 0),
        camera(),
        sprite(1, 1, 1, 1),
        sprite(2, 1, 1, 0),
    ];
    let draws = renderer.draw(&table, false, SIZE);
    let order: Vec<(i32, usize)> = draws.iter().map(|d| (d.view.layer, d.shape)).collect();
    assert_eq!(order, vec![(0, 1), (0, 2), (1, 1), (2, 1)]);
    for d in &draws {
        assert_eq!(d.instance_count, 1);
        assert_eq!(d.instances.len(), 1);
    }
}

#[test]
fn an_unchanged_target_keeps_the_pipeline_object() {
    let mut renderer = InstanceRenderer::new(CompareOp::LessOrEqual);
    let table = vec![camera(), sprite(1, 1, 1, 0), sprite(1, 1, 1, 1)];
    let first = renderer.draw(&table, false, SIZE);
    let handle = first[0].pipeline;
    for _ in 0..3 {
        let draws = renderer.draw(&table, false, SIZE);
        assert_eq!(builds(&draws), vec![false, false]);
        assert_eq!(draws[0].pipeline, handle);
        assert_eq!(draws[1].pipeline, handle);
    }
    assert_eq!(renderer.generation(), 0);
}

#[test]
fn a_changed_target_rebuilds_once_before_any_draw() {
    let mut renderer = InstanceRenderer::new(CompareOp::LessOrEqual);
    let table = vec![camera(), sprite(1, 1, 1, 0), sprite(1, 1, 1, 1), sprite(2, 1, 1, 1)];
    let before = renderer.draw(&table, false, SIZE);
    let old = before[0].pipeline;

    let resized = Viewport { extent: [1024.0f32, 768.0].map(f32::to_bits), ..SIZE };
    let draws = renderer.draw(&table, true, resized);
    assert_eq!(renderer.generation(), 1);
    assert_eq!(builds(&draws), vec![true, false, false]);
    let new = draws[0].pipeline;
    assert_ne!(new, old);
    assert_eq!(new, PipelineHandle { pipeline: 1, build: old.build + 1 });
    assert_eq!(draws[0].create.unwrap().viewport, resized);
    for d in &draws {
        assert_eq!(d.pipeline, new);
    }
    let all: Vec<Command> = draws.iter().flat_map(|d| d.commands()).collect();
    let creates = all.iter().filter(|c| matches!(c, Command::CreatePipeline { .. })).count();
    assert_eq!(creates, 1);
    assert_eq!(all[0], Command::CreatePipeline { pipeline: new });
    let first_draw = all.iter().position(|c| matches!(c, Command::Draw { .. })).unwrap();
    assert!(first_draw > 0);

    let after = renderer.draw(&table, false, resized);
    assert_eq!(builds(&after), vec![false, false, false]);
    assert_eq!(after[0].pipeline, new);
}

#[test]
fn a_pipeline_is_built_by_the_first_draw_that_uses_it() {
    let mut renderer = InstanceRenderer::new(CompareOp::LessOrEqual);
    let table = vec![
        camera(),
        sprite(1, 1, 1, 0),
        sprite(1, 1, 2, 1),
        sprite(1, 1, 1, 2),
        sprite(1, 1, 2, 3),
    ];
    let draws = renderer.draw(&table, true, SIZE);
    assert_eq!(builds(&draws), vec![true, true, false, false]);
    let used: Vec<usize> = draws.iter().map(|d| d.pipeline.pipeline).collect();
    assert_eq!(used, vec![1, 2, 1, 2]);
    assert_eq!(draws[0].create.unwrap().vertex, 2);
    assert_eq!(draws[1].create.unwrap().vertex, 4);
    assert_eq!(draws[0].pipeline, draws[2].pipeline);
    assert_eq!(draws[1].pipeline, draws[3].pipeline);
}

#[test]
fn a_pipeline_that_sat_out_a_change_is_rebuilt_when_it_returns() {
    let mut renderer = InstanceRenderer::new(CompareOp::LessOrEqual);
    let both = vec![camera(), sprite(1, 1, 1, 0), sprite(1, 1, 2, 1)];
    let one = vec![camera(), sprite(1, 1, 1, 0)];
    let first = renderer.draw(&both, false, SIZE);
    let absent = first[1].pipeline;
    assert_eq!(builds(&renderer.draw(&one, true, SIZE)), vec![true]);
    let back = renderer.draw(&both, false, SIZE);
    assert_eq!(builds(&back), vec![false, true]);
    assert_ne!(back[1].pipeline, absent);
}

#[test]
fn after_invalidate_the_next_frame_builds_anew() {
    let mut renderer = InstanceRenderer::new(CompareOp::LessOrEqual);
    let table = vec![camera(), sprite(1, 1, 1, 0)];
    let first = renderer.draw(&table, false, SIZE);
    renderer.invalidate();
    assert_eq!(renderer.generation(), 0);
    let second = renderer.draw(&table, false, SIZE);
    assert_eq!(builds(&second), vec![true]);
    assert_ne!(second[0].pipeline, first[0].pipeline);
    assert_eq!(builds(&renderer.draw(&table, false, SIZE)), vec![false]);
}

#[test]
fn the_renderer_builds_with_its_depth_test() {
    let table = vec![camera(), sprite(1, 1, 1, 0)];
    let mut strict = InstanceRenderer::new(CompareOp::Less);
    assert_eq!(strict.depth_test(), CompareOp::Less);
    assert_eq!(strict.draw(&table, false, SIZE)[0].create.unwrap().depth_test, CompareOp::Less);
    let mut lax = InstanceRenderer::new(CompareOp::LessOrEqual);
    assert_eq!(lax.draw(&table, false, SIZE)[0].create.unwrap().depth_test, CompareOp::LessOrEqual);
}

#[test]
fn the_first_camera_is_the_frames_camera() {
    let mut second = camera();
    second.camera = Some(Camera::new([[7; 4]; 4], true));
    let table = vec![sprite(1, 1, 1, 0), camera(), second];
    let mut renderer = InstanceRenderer::new(CompareOp::LessOrEqual);
    let draws = renderer.draw(&table, false, SIZE);
    assert_eq!(draws[0].view.camera_proj, projection());
}

#[test]
fn an_empty_batch_is_not_drawn() {
    let drawable = InstanceDrawable::new();
    let mut pipelines = PipelineTable::new();
    let frame = Frame { generation: 0, viewport: SIZE, depth_test: CompareOp::Less };
    let c = camera();
    let drawn = drawable.draw(
        &Vec::new(),
        &c.camera.unwrap(),
        &c.transform.unwrap(),
        &frame,
        &mut pipelines,
    );
    assert!(drawn.is_none());
    assert!(pipelines.get(1).is_none());
}

#[test]
fn counts_are_cut_to_32_bits() {
    let drawable = InstanceDrawable::new();
    let mut pipelines = PipelineTable::new();
    let frame = Frame { generation: 0, viewport: SIZE, depth_test: CompareOp::Less };
    let c = camera();
    let mut e = sprite(1, 1, 1, 0);
    e.instance.as_mut().unwrap().shape.vertices = (1u64 << 32) + 3;
    let member = InstanceEntity {
        id: 0,
        instance: e.instance.unwrap(),
        transform: e.transform.unwrap(),
    };
    let d = drawable
        .draw(&vec![member], &c.camera.unwrap(), &c.transform.unwrap(), &frame, &mut pipelines)
        .unwrap();
    assert_eq!(d.vertex_count, 3);
    assert_eq!(d.instance_count, 1);
}

#[test]
fn the_generation_starts_over_after_the_last() {
    let mut renderer = InstanceRenderer::new(CompareOp::LessOrEqual);
    let table = vec![camera(), sprite(1, 1, 1, 0)];
    assert_eq!(renderer.generation(), 0);
    renderer.draw(&table, true, SIZE);
    renderer.draw(&table, true, SIZE);
    renderer.draw(&table, false, SIZE);
    assert_eq!(renderer.generation(), 2);
}

#[test]
fn the_view_block_pads_the_rows_of_the_transform() {
    let view = ViewUniform {
        camera_transform: [[1, 2, 3], [4, 5, 6], [7, 8, 9]],
        camera_proj: [[10, 11, 12, 13], [14, 15, 16, 17], [18, 19, 20, 21], [22, 23, 24, 25]],
        layer: 3,
    };
    assert_eq!(
        view.block(99),
        [
            [1, 2, 3, 0],
            [4, 5, 6, 0],
            [7, 8, 9, 0],
            [10, 11, 12, 13],
            [14, 15, 16, 17],
            [18, 19, 20, 21],
            [22, 23, 24, 25],
            [99, 0, 0, 0],
        ]
    );
    assert_eq!(view.block(0).len(), hex_instance::vertex::BLOCK_ROWS);
}

#[test]
fn the_view_block_of_a_draw_carries_the_cameras_matrices() {
    let mut renderer = InstanceRenderer::new(CompareOp::LessOrEqual);
    let draws = renderer.draw(&vec![camera(), sprite(1, 1, 1, -2)], false, SIZE);
    let depth = 2.0f32.to_bits();
    let block = draws[0].view.block(depth);
    assert_eq!(block[0].map(f32::from_bits), [1.0, 0.0, 3.0, 0.0]);
    assert_eq!(block[1].map(f32::from_bits), [0.0, 1.0, 4.0, 0.0]);
    assert_eq!(block[2].map(f32::from_bits), [0.0, 0.0, 1.0, 0.0]);
    assert_eq!([block[3], block[4], block[5], block[6]], projection());
    assert_eq!(block[7].map(f32::from_bits), [2.0, 0.0, 0.0, 0.0]);
    assert_eq!(draws[0].view.layer, -2);
}
