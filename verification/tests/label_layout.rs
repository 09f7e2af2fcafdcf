use concinnity_gfx::float_bits::FloatBits;
use concinnity_gfx::label_layout::{LabelBox, LabelPlace, LayoutContainer, apply_label_layout};
use std::collections::HashMap;

fn bits(x: f32) -> FloatBits {
    FloatBits::new(x.to_bits())
}

fn num(x: FloatBits) -> f32 {
    f32::from_bits(x.bits)
}

fn label(asset_id: u32) -> LabelPlace {
    LabelPlace { asset_id, x: bits(0.0), y: bits(0.0) }
}

// A column of labels at an x, each below the last by its height.
struct Column {
    x: f32,
    ids: Vec<u32>,
}

fn layout(c: &Column, sizes: &HashMap<u32, LabelBox>) -> Vec<LabelPlace> {
    let mut y = 0.0;
    let mut out = Vec::new();
    for id in &c.ids {
        if let Some(b) = sizes.get(id) {
            out.push(LabelPlace { asset_id: *id, x: bits(c.x), y: bits(y) });
            y += num(b.height);
        }
    }
    out
}

fn column(visible: bool, x: f32, ids: Vec<u32>) -> LayoutContainer<Column> {
    LayoutContainer { visible, rules: Column { x, ids } }
}

fn place(containers: Vec<LayoutContainer<Column>>, ids: &[u32]) -> Vec<(u32, f32, f32)> {
    let mut labels: Vec<LabelPlace> = ids.iter().map(|i| label(*i)).collect();
    let heights: Vec<u32> = ids.to_vec();
    // Label 9 cannot be measured; another is as high as its id.
    let measure = |i: usize| {
        if heights[i] == 9 {
            None
        } else {
            Some(LabelBox { width: bits(1.0), height: bits(heights[i] as f32) })
        }
    };
    apply_label_layout(&containers, &mut labels, &measure, &layout);
    labels.iter().map(|l| (l.asset_id, num(l.x), num(l.y))).collect()
}

#[test]
fn visible_containers_place_their_labels() {
    let now = place(
        vec![column(true, 5.0, vec![2, 9, 3]), column(false, 7.0, vec![4])],
        &[3, 2, 4, 9],
    );
    assert_eq!(now, vec![(3, 5.0, 2.0), (2, 5.0, 0.0), (4, 0.0, 0.0), (9, 0.0, 0.0)]);
}

#[test]
fn a_later_container_overrules_and_duplicates_stay() {
    let now = place(
        vec![column(true, 5.0, vec![2]), column(true, 6.0, vec![2])],
        &[2, 2],
    );
    assert_eq!(now, vec![(2, 6.0, 0.0), (2, 0.0, 0.0)]);
}

#[test]
fn without_a_visible_container_every_label_stays() {
    let now = place(vec![column(false, 5.0, vec![2])], &[2]);
    assert_eq!(now, vec![(2, 0.0, 0.0)]);
}
