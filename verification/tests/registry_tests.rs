use square_engine::Renderer;
use square_engine::SquareTransform;

fn record_of(t: &[f32; 5]) -> Vec<u8> {
    let mut out = Vec::new();
    for v in t {
        out.extend_from_slice(&v.to_le_bytes());
    }
    out
}

fn transform_of(t: &[f32; 5]) -> SquareTransform {
    SquareTransform::new(
        t[0].to_bits(),
        t[1].to_bits(),
        t[2].to_bits(),
        t[3].to_bits(),
        t[4].to_bits(),
    )
}

#[test]
fn serialize_empty_registry() {
    let renderer = Renderer::new();
    let (bytes, live) = renderer.serialize();
    assert_eq!(bytes.len(), 0);
    assert_eq!(live, 0);
}

#[test]
fn serialized_record_layout_matches_f32_le() {
    let mut renderer = Renderer::new();
    let pose = [0.5f32, -0.25, 3.0, 1.5, 1.5];
    renderer.add_mesh(transform_of(&pose));
    let (bytes, live) = renderer.serialize();
    assert_eq!(live, 1);
    assert_eq!(bytes, record_of(&pose));
}

#[test]
fn compact_keeps_live_records_in_registration_order() {
    let mut renderer = Renderer::new();
    let a = [1.0f32, 2.0, 3.0, 4.0, 4.0];
    let b = [5.0f32, 6.0, 7.0, 8.0, 8.0];
    let c = [9.0f32, 10.0, 11.0, 12.0, 12.0];
    let _ha = renderer.add_mesh(transform_of(&a));
    let hb = renderer.add_mesh(transform_of(&b));
    let _hc = renderer.add_mesh(transform_of(&c));
    renderer.release(hb);
    renderer.compact();
    let (bytes, live) = renderer.serialize();
    assert_eq!(live, 2);
    let mut expected = record_of(&a);
    expected.extend_from_slice(&record_of(&c));
    assert_eq!(bytes, expected);
}

#[test]
fn serialize_skips_stale_entries_before_compaction() {
    let mut renderer = Renderer::new();
    let a = [1.0f32, 1.0, 0.0, 1.0, 1.0];
    let b = [2.0f32, 2.0, 0.0, 2.0, 2.0];
    let ha = renderer.add_mesh(transform_of(&a));
    let _hb = renderer.add_mesh(transform_of(&b));
    renderer.release(ha);
    let (bytes, live) = renderer.serialize();
    assert_eq!(live, 1);
    assert_eq!(bytes, record_of(&b));
}

#[test]
fn set_transform_rewrites_the_record() {
    let mut renderer = Renderer::new();
    let before = [0.0f32, 0.0, 0.0, 1.0, 1.0];
    let after = [0.5f32, -0.5, 0.25, 2.0, 2.0];
    let h = renderer.add_mesh(transform_of(&before));
    renderer.set_transform(h, transform_of(&after));
    let (bytes, live) = renderer.serialize();
    assert_eq!(live, 1);
    assert_eq!(bytes, record_of(&after));
}

#[test]
fn released_handle_goes_stale_and_slot_is_recycled() {
    let mut renderer = Renderer::new();
    let a = [1.0f32, 0.0, 0.0, 1.0, 1.0];
    let b = [2.0f32, 0.0, 0.0, 1.0, 1.0];
    let ha = renderer.add_mesh(transform_of(&a));
    assert!(renderer.is_live(ha));
    renderer.release(ha);
    assert!(!renderer.is_live(ha));
    renderer.compact();
    let hb = renderer.add_mesh(transform_of(&b));
    assert!(renderer.is_live(hb));
    assert!(!renderer.is_live(ha));
    let (bytes, live) = renderer.serialize();
    assert_eq!(live, 1);
    assert_eq!(bytes, record_of(&b));
}
