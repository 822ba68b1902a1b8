use hamster::color::AmigaRgb;
use hamster::color_map::ColorMap;

#[test]
fn test_index_u4() {
    let mut cm = ColorMap::empty();
    cm.set(15, AmigaRgb::new(8, 8, 8));
    assert_eq!(cm.get(15), AmigaRgb::new(8, 8, 8));
}

#[test]
fn test_index_u8() {
    let mut cm = ColorMap::empty();
    cm.set(15, AmigaRgb::new(8, 8, 8));
    assert_eq!(cm.get(15), AmigaRgb::new(8, 8, 8));
}

#[test]
fn test_index_of_similar_same() {
    let mut cm = ColorMap::empty();
    cm.set(5, AmigaRgb::new(7, 7, 7));
    assert_eq!(cm.index_of_similar(AmigaRgb::new(7, 7, 7)), 5);
}

#[test]
fn test_index_of_similar_near() {
    let mut cm = ColorMap::empty();
    cm.set(15, AmigaRgb::new(14, 15, 14));
    assert_eq!(cm.index_of_similar(AmigaRgb::new(15, 14, 15)), 15);
}

#[test]
fn test_index_of_similar_first_if_same_distance() {
    let mut cm = ColorMap::empty();
    cm.set(4, AmigaRgb::new(15, 15, 15));
    cm.set(8, AmigaRgb::new(13, 13, 13));
    assert_eq!(cm.index_of_similar(AmigaRgb::new(14, 14, 14)), 4);
}

#[test]
fn nearest_tie_at_distance_one_prefers_lower_index() {
    let mut cm = ColorMap::empty();
    for i in 0..16u8 {
        cm.set(i, AmigaRgb::new(15, 0, 15));
    }
    cm.set(4, AmigaRgb::new(5, 5, 6));
    cm.set(8, AmigaRgb::new(5, 6, 5));
    assert_eq!(cm.index_of_similar(AmigaRgb::new(5, 5, 5)), 4);
}

#[test]
fn empty_palette_always_gives_first_index() {
    let cm = ColorMap::empty();
    assert_eq!(cm.index_of_similar(AmigaRgb::new(15, 15, 15)), 0);
    assert_eq!(cm.get(9), AmigaRgb::new(0, 0, 0));
}

#[test]
fn default_palette_entries() {
    let cm = ColorMap::default();
    assert_eq!(cm.get(0), AmigaRgb::new(0, 0, 0));
    assert_eq!(cm.get(7), AmigaRgb::new(12, 12, 12));
    assert_eq!(cm.get(8), AmigaRgb::new(8, 8, 8));
    assert_eq!(cm.get(15), AmigaRgb::new(15, 15, 15));
    assert_eq!(cm.index_of_similar(AmigaRgb::new(11, 12, 13)), 7);
    assert_eq!(cm.index_of_similar(AmigaRgb::new(14, 1, 0)), 9);
}
