use concinnity_gfx::mipmap::{MipLevel, downsample_box, generate_mip_chain, mip_level_count};

#[test]
fn level_count_matches_floor_log2_plus_one() {
    assert_eq!(mip_level_count(1, 1), 1);
    assert_eq!(mip_level_count(2, 2), 2);
    assert_eq!(mip_level_count(256, 256), 9);
    assert_eq!(mip_level_count(512, 512), 10);
    // Non-square / non-power-of-two key off the larger axis.
    assert_eq!(mip_level_count(640, 384), 10); // 640 -> floor(log2)=9, +1
    assert_eq!(mip_level_count(1, 8), 4); // 8 -> 3, +1
}

#[test]
fn chain_dimensions_halve_to_one() {
    let px = vec![0u8; 4 * 4 * 4];
    let chain = generate_mip_chain(4, 4, &px);
    let dims: Vec<(u32, u32)> = chain.iter().map(|m| (m.width, m.height)).collect();
    assert_eq!(dims, vec![(4, 4), (2, 2), (1, 1)]);
    assert_eq!(chain.len() as u32, mip_level_count(4, 4));
}

#[test]
fn non_square_chain_floors_each_axis_independently() {
    let px = vec![0u8; 4 * 2 * 4];
    let chain = generate_mip_chain(4, 2, &px);
    let dims: Vec<(u32, u32)> = chain.iter().map(|m| (m.width, m.height)).collect();
    // Width halves to 1 in two steps; height bottoms out at 1 and stays.
    assert_eq!(dims, vec![(4, 2), (2, 1), (1, 1)]);
}

#[test]
fn two_by_two_averages_to_single_texel() {
    // Four grey texels 0, 4, 8, 12 -> mean 6 (rounded).
    let px = vec![
        0, 0, 0, 0, // (0,0)
        4, 4, 4, 4, // (1,0)
        8, 8, 8, 8, // (0,1)
        12, 12, 12, 12, // (1,1)
    ];
    let chain = generate_mip_chain(2, 2, &px);
    assert_eq!(chain.len(), 2);
    let mip1 = &chain[1];
    assert_eq!((mip1.width, mip1.height), (1, 1));
    assert_eq!(mip1.pixels, vec![6, 6, 6, 6]);
}

#[test]
fn rounds_to_nearest() {
    // 0, 0, 0, 1 -> mean 0.25 -> rounds to 0; 0,1,1,1 -> 0.75 -> rounds to 1.
    let dark = vec![0, 0, 0, 255, 0, 0, 0, 255, 0, 0, 0, 255, 1, 1, 1, 255];
    let c = generate_mip_chain(2, 2, &dark);
    assert_eq!(&c[1].pixels[0..3], &[0, 0, 0]);

    let bright = vec![0, 0, 0, 255, 1, 1, 1, 255, 1, 1, 1, 255, 1, 1, 1, 255];
    let c = generate_mip_chain(2, 2, &bright);
    assert_eq!(&c[1].pixels[0..3], &[1, 1, 1]);
}

#[test]
fn box_filter_clamps_at_the_edge_of_any_destination() {
    let mut pixels = Vec::new();
    for v in [10u8, 20, 31] {
        pixels.extend([v, 0, 255, v]);
    }
    // Bytes past the last texel are not read.
    pixels.extend([99, 99]);
    let src = MipLevel { width: 3, height: 1, pixels };
    let mut dst = vec![7u8; 4 * 2 * 4 + 3];
    downsample_box(&src, 4, 2, &mut dst);
    for y in 0..2 {
        let row: Vec<u8> = (0..4).map(|x| dst[(y * 4 + x) * 4]).collect();
        assert_eq!(row, vec![15, 31, 31, 31]);
        assert_eq!(&dst[y * 16..y * 16 + 4], &[15, 0, 255, 15]);
    }
    // Bytes past the destination are kept.
    assert_eq!(&dst[32..], &[7, 7, 7]);
}
