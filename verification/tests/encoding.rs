use hex_instance::instance_data::encode;
use hex_instance::{Instance, InstanceData, InstanceEntity, Pipeline, Shape, Transform};

fn record(color: [f32; 4]) -> Instance {
    Instance::new(
        Shape { id: 1, vertices: 4 },
        2,
        Pipeline { id: 3, vertex: 4, fragment: 5 },
        color.map(f32::to_bits),
        0,
        true,
    )
}

fn transform(m: [[f32; 3]; 3]) -> Transform {
    Transform::new(m.map(|row| row.map(f32::to_bits)), true)
}

const IDENTITY: [[f32; 3]; 3] = [[1.0, 0.0, 0.0], [0.0, 1.0, 0.0], [0.0, 0.0, 1.0]];

#[test]
fn identity_and_white_come_out_exactly() {
    let data = InstanceData::new(&record([1.0, 1.0, 1.0, 1.0]), &transform(IDENTITY));
    assert_eq!(data.color.map(f32::from_bits), [1.0, 1.0, 1.0, 1.0]);
    assert_eq!(data.transform_x.map(f32::from_bits), [1.0, 0.0, 0.0]);
    assert_eq!(data.transform_y.map(f32::from_bits), [0.0, 1.0, 0.0]);
    assert_eq!(data.transform_z.map(f32::from_bits), [0.0, 0.0, 1.0]);
    assert_eq!(data.color, [0x3f80_0000; 4]);
}

#[test]
fn rows_are_rows() {
    let m = [[1.0, 2.0, 3.0], [4.0, 5.0, 6.0], [7.0, 8.0, 9.0]];
    let data = InstanceData::new(&record([0.25, 0.5, 0.75, 1.0]), &transform(m));
    assert_eq!(data.transform_x.map(f32::from_bits), [1.0, 2.0, 3.0]);
    assert_eq!(data.transform_y.map(f32::from_bits), [4.0, 5.0, 6.0]);
    assert_eq!(data.transform_z.map(f32::from_bits), [7.0, 8.0, 9.0]);
    assert_eq!(data.color.map(f32::from_bits), [0.25, 0.5, 0.75, 1.0]);
}

#[test]
fn nothing_is_clamped_or_normalized() {
    let odd = [2.5f32, -1.0, f32::INFINITY, -0.0];
    let data = InstanceData::new(&record(odd), &transform(IDENTITY));
    assert_eq!(data.color, odd.map(f32::to_bits));

    let nan = 0x7fc0_1234u32;
    let mut r = record([0.0; 4]);
    r.color = [nan, 0xffff_ffff, 1, 0x8000_0000];
    let mut t = transform(IDENTITY);
    t.matrix[1] = [nan, 0, u32::MAX];
    let data = InstanceData::new(&r, &t);
    assert_eq!(data.color, [nan, 0xffff_ffff, 1, 0x8000_0000]);
    assert_eq!(data.transform_y, [nan, 0, u32::MAX]);
}

#[test]
fn inactive_flags_do_not_change_the_encoding() {
    let mut r = record([1.0, 0.0, 0.0, 1.0]);
    r.active = false;
    let mut t = transform(IDENTITY);
    t.active = false;
    let data = InstanceData::new(&r, &t);
    assert_eq!(data, InstanceData::new(&record([1.0, 0.0, 0.0, 1.0]), &transform(IDENTITY)));
}

#[test]
fn encoding_keeps_the_order_of_members() {
    let members: Vec<InstanceEntity> = (0..5usize)
        .map(|i| InstanceEntity {
            id: 10 * i,
            instance: record([i as f32, 0.0, 0.0, 1.0]),
            transform: transform([[i as f32, 0.0, 0.0], [0.0, 1.0, 0.0], [0.0, 0.0, 1.0]]),
        })
        .collect();
    let data = encode(&members);
    assert_eq!(data.len(), 5);
    for (i, d) in data.iter().enumerate() {
        assert_eq!(*d, InstanceData::new(&members[i].instance, &members[i].transform));
        assert_eq!(f32::from_bits(d.color[0]), i as f32);
        assert_eq!(f32::from_bits(d.transform_x[0]), i as f32);
    }
}

#[test]
fn encoding_nothing_gives_nothing() {
    assert!(encode(&Vec::new()).is_empty());
}

#[test]
fn the_words_are_the_fields_in_order() {
    let m = [[1.0, 2.0, 3.0], [4.0, 5.0, 6.0], [7.0, 8.0, 9.0]];
    let data = InstanceData::new(&record([0.25, 0.5, 0.75, 1.0]), &transform(m));
    assert_eq!(
        data.words().map(f32::from_bits),
        [0.25, 0.5, 0.75, 1.0, 1.0, 2.0, 3.0, 4.0, 5.0, 6.0, 7.0, 8.0, 9.0]
    );
}

#[test]
fn the_words_lie_at_the_offsets_of_the_vertex_inputs() {
    let mut r = record([0.0; 4]);
    r.color = [20, 21, 22, 23];
    let mut t = transform(IDENTITY);
    t.matrix = [[30, 31, 32], [40, 41, 42], [50, 51, 52]];
    let words = InstanceData::new(&r, &t).words();
    for a in hex_instance::vertex::attributes() {
        if a.slot == hex_instance::vertex::INSTANCE_SLOT {
            let at = (a.offset / 4) as usize;
            let field = &words[at..at + a.components as usize];
            let expected: Vec<u32> = (0..a.components).map(|c| 10 * a.location + c).collect();
            assert_eq!(field, &expected[..]);
        }
    }
}
