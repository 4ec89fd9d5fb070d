use xiaofeng::render::{quad_indices, RenderData, SpriteSheet, SpriteSheetSheet, SpriteSheetSize};

#[test]
fn new_render_data_is_empty() {
    let r: RenderData<u8> = RenderData::new();
    assert!(r.vertex.is_empty());
    assert!(r.index.is_empty());
}

#[test]
fn offset_shifts_every_index() {
    let mut r: RenderData<u8> = RenderData { vertex: vec![1, 2, 3, 4], index: vec![0, 1, 2, 0, 2, 3] };
    r.offset(8);
    assert_eq!(r.index, vec![8, 9, 10, 8, 10, 11]);
    assert_eq!(r.vertex, vec![1, 2, 3, 4]);
    r.offset(0);
    assert_eq!(r.index, vec![8, 9, 10, 8, 10, 11]);
}

#[test]
fn offsets_compose() {
    let mut a: RenderData<u8> = RenderData { vertex: vec![], index: vec![5, 7] };
    let mut b = a.clone();
    a.offset(3);
    a.offset(4);
    b.offset(7);
    assert_eq!(a.index, b.index);
}

#[test]
fn quad_indices_make_two_triangles() {
    assert_eq!(quad_indices(0), vec![0, 1, 2, 0, 2, 3]);
    assert_eq!(quad_indices(12), vec![12, 13, 14, 12, 14, 15]);
}

#[test]
fn sheets_are_packed_side_by_side() {
    let sizes = vec![
        SpriteSheetSize { width: 64, height: 32, sprite_width: 16, sprite_height: 16, sprite_padding: 0 },
        SpriteSheetSize { width: 100, height: 80, sprite_width: 32, sprite_height: 32, sprite_padding: 2 },
        SpriteSheetSize { width: 10, height: 10, sprite_width: 10, sprite_height: 10, sprite_padding: 0 },
    ];
    let sss = SpriteSheetSheet::create_from_json(&sizes, 0);
    assert_eq!(sss.path, "src/rendering_engine/img/COMBINED_AUTO_GENERATED.png");
    assert_eq!(sss.sheets.len(), 3);
    let offsets: Vec<usize> = sss.sheets.iter().map(|s| s.x_offset).collect();
    assert_eq!(offsets, vec![0, 64, 164]);
    for s in &sss.sheets {
        assert_eq!(s.total_width, 174);
        assert_eq!(s.height, 80);
        assert_eq!(s.texture_id, 0);
    }
    assert_eq!(sss.sheets[1].sprite_padding, 2);
    assert!(SpriteSheetSheet::create_from_json(&vec![], 3).sheets.is_empty());
}

#[test]
fn sprite_origins_follow_the_grid() {
    let s = SpriteSheet {
        texture_id: 0,
        x_offset: 64,
        total_width: 174,
        width: 100,
        height: 80,
        sprite_width: 32,
        sprite_height: 32,
        sprite_padding: 2,
    };
    assert_eq!(s.sprite_origins(&vec![(0, 0), (1, 0), (2, 1)]), vec![(64, 0), (98, 0), (132, 34)]);
}
