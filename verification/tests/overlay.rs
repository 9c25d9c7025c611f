use dimland::pixels::{generate_buffer, pixel_color};
use dimland::registry::DimlandData;
use dimland::view::SurfaceState;

/// The four bytes of one pixel, in B, G, R, A order.
fn pixel(buf: &[u8], width: u32, x: u32, y: u32) -> [u8; 4] {
    let i = ((y * width + x) * 4) as usize;
    [buf[i], buf[i + 1], buf[i + 2], buf[i + 3]]
}

#[test]
fn buffer_length() {
    let buf = generate_buffer(7, 5, 2, 200);
    assert_eq!(buf.len(), 7 * 5 * 4);
    assert_eq!(generate_buffer(0, 5, 3, 10).len(), 0);
    assert_eq!(generate_buffer(5, 0, 3, 10).len(), 0);
}

#[test]
fn buffer_deterministic() {
    let a = generate_buffer(9, 4, 3, 77);
    let b = generate_buffer(9, 4, 3, 77);
    assert_eq!(a, b);
}

#[test]
fn radius_zero_is_flat_alpha() {
    for &alpha in &[0u8, 1, 127, 255] {
        let buf = generate_buffer(4, 3, 0, alpha);
        assert_eq!(buf.len(), 4 * 3 * 4);
        for chunk in buf.chunks_exact(4) {
            assert_eq!(chunk, &[0, 0, 0, alpha]);
        }
    }
}

#[test]
fn concrete_corner_case() {
    // width 10, height 10, radius 3, alpha byte 127 (an opacity of one half).
    let buf = generate_buffer(10, 10, 3, 127);
    // (0,0): (3-0)^2 + (3-0)^2 = 18 > 9, inside the corner cut: opaque black.
    assert_eq!(pixel(&buf, 10, 0, 0), [0, 0, 0, 0xFF]);
    // (3,3): 3 < 3 fails for every corner: the base color.
    assert_eq!(pixel(&buf, 10, 3, 3), [0, 0, 0, 0x7F]);
    // (5,5): the center, no corner condition applies.
    assert_eq!(pixel(&buf, 10, 5, 5), [0, 0, 0, 0x7F]);
}

#[test]
fn concrete_corner_case_words() {
    assert_eq!(pixel_color(10, 10, 3, 127, 0, 0), 0xFF000000);
    assert_eq!(pixel_color(10, 10, 3, 127, 3, 3), 0x7F000000);
    assert_eq!(pixel_color(10, 10, 3, 127, 5, 5), 0x7F000000);
}

#[test]
fn radius_larger_than_surface() {
    // With radius 5 on a 2 by 2 surface every pixel sits in the top-left
    // bounding box, at squared distance at least 32 > 25 from its center:
    // everything is cut, and nothing wraps around.
    let buf = generate_buffer(2, 2, 5, 9);
    for chunk in buf.chunks_exact(4) {
        assert_eq!(chunk, &[0, 0, 0, 0xFF]);
    }
}

#[test]
fn update_with_unchanged_size_reproduces_buffer() {
    let mut data = DimlandData::new(127, 3);
    data.new_output(1, Some((6, 4)));
    let before = data.views[0].buffer.clone();
    data.update_output(1, Some((6, 4)));
    assert_eq!(data.views.len(), 1);
    assert_eq!(data.views[0].buffer, before);
}

#[test]
fn update_with_new_size_rerenders() {
    let mut data = DimlandData::new(127, 0);
    data.new_output(1, Some((2, 2)));
    data.update_output(1, Some((3, 2)));
    assert_eq!(data.views.len(), 1);
    assert_eq!(data.views[0].buffer.len(), 3 * 2 * 4);
    assert_eq!(data.views[0].buffer_width, 3);
}

#[test]
fn registry_tracks_adds_and_removes() {
    let mut data = DimlandData::new(50, 0);
    data.new_output(1, Some((2, 2)));
    data.new_output(2, Some((2, 2)));
    data.new_output(3, None);
    assert_eq!(data.views.len(), 3);
    // A second addition for a tracked output replaces its entry; it never
    // duplicates it.
    data.new_output(2, Some((4, 2)));
    assert_eq!(data.views.len(), 3);
    // An update for an untracked output is ignored.
    data.update_output(9, Some((2, 2)));
    assert_eq!(data.views.len(), 3);
    // A removal drops exactly the matching entry; a repeat is ignored.
    data.output_destroyed(2);
    assert_eq!(data.views.len(), 2);
    data.output_destroyed(2);
    assert_eq!(data.views.len(), 2);
    let mut outputs: Vec<u64> = data.views.iter().map(|v| v.output).collect();
    outputs.sort();
    assert_eq!(outputs, vec![1, 3]);
    // An output added again after its removal is covered again.
    data.new_output(2, None);
    assert_eq!(data.views.len(), 3);
}

#[test]
fn end_to_end_unknown_size() {
    let mut data = DimlandData::new(127, 0);
    // The output appears before its size is known: the buffer is rendered
    // at zero by zero.
    data.new_output(7, None);
    assert_eq!(data.views.len(), 1);
    assert_eq!(data.views[0].buffer.len(), 0);
    assert_eq!(data.views[0].buffer_width, 0);
    assert_eq!(data.views[0].buffer_height, 0);
    assert_eq!(data.views[0].width, 0);
    assert_eq!(data.views[0].height, 0);
    assert_eq!(data.views[0].state, SurfaceState::Uninitialized);
    // The first size confirmation: the surface goes live, the scaling
    // destination becomes (800, 600), and the buffer is attached now.
    assert_eq!(data.configure(7, 800, 600), Some(true));
    assert_eq!(data.views[0].width, 800);
    assert_eq!(data.views[0].height, 600);
    assert_eq!(data.views[0].state, SurfaceState::Live);
    // The buffer stays the zero-sized one rendered at construction: it is
    // never re-rendered at the confirmed size.
    assert_eq!(data.views[0].buffer.len(), 0);
    assert_eq!(data.views[0].buffer_width, 0);
    // A later confirmation updates scaling only: no second attach, ever.
    assert_eq!(data.configure(7, 1024, 768), Some(false));
    assert_eq!(data.views[0].width, 1024);
    assert_eq!(data.views[0].state, SurfaceState::Live);
    // A confirmation for an untracked output is ignored.
    assert_eq!(data.configure(99, 1, 1), None);
    assert_eq!(data.views.len(), 1);
}

#[test]
fn closed_sets_exit() {
    let mut data = DimlandData::new(10, 0);
    assert!(!data.should_exit());
    data.new_output(1, Some((2, 2)));
    data.closed();
    assert!(data.should_exit());
    // Closing affects the exit flag alone; the tracked surfaces stay.
    assert_eq!(data.views.len(), 1);
}

#[test]
fn alpha_byte_lands_in_top_bits() {
    assert_eq!(pixel_color(1, 1, 0, 255, 0, 0), 0xFF000000);
    assert_eq!(pixel_color(1, 1, 0, 1, 0, 0), 0x01000000);
    assert_eq!(pixel_color(1, 1, 0, 0, 0, 0), 0x00000000);
}
