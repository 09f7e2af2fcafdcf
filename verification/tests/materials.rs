use concinnity_gfx::float_bits::FloatBits;
use concinnity_gfx::hot_reload_sources::TextureKind;
use concinnity_gfx::materials::{
    MapKind, Material, MaterialError, Texture, assign_albedo_slots, resolve_materials,
};
use concinnity_gfx::streaming::PayloadLocator;

fn bits(x: f32) -> FloatBits {
    FloatBits::new(x.to_bits())
}

fn at(blob_index: u32) -> Option<PayloadLocator> {
    Some(PayloadLocator { blob_index, offset: 0, len: 16 })
}

fn texture(asset_id: u32, source: &str, generator: &str) -> Texture {
    Texture {
        asset_id,
        locator: at(asset_id),
        generator: generator.to_string(),
        source: source.to_string(),
        image_index: asset_id + 100,
    }
}

fn textures() -> Vec<Texture> {
    vec![
        texture(10, "t/albedo.png", ""),
        texture(11, "t/normal.png", ""),
        texture(12, "", "checker"),
        texture(13, "ignored.png", "noise"),
    ]
}

fn material(asset_id: u32) -> Material {
    Material {
        asset_id,
        albedo: None,
        normal_map: None,
        albedo_secondary: None,
        normal_secondary: None,
        emissive_map: None,
        orm_map: None,
        roughness: bits(0.5),
        metallic: bits(0.1),
        macro_variation: bits(0.0),
        terrain_blend: bits(0.0),
        tint: [bits(1.0); 3],
        emissive_factor: [bits(0.0); 3],
        secondary_blend_sharpness: bits(1.0),
        opacity: bits(1.0),
        transparent: false,
        see_through: true,
    }
}

#[test]
fn albedo_slots_are_the_declaration_order() {
    let pool = assign_albedo_slots(&textures(), true).unwrap();
    assert_eq!(pool.slots[&10], 0);
    assert_eq!(pool.slots[&13], 3);
    assert_eq!(pool.locators.iter().map(|l| l.blob_index).collect::<Vec<_>>(), vec![10, 11, 12, 13]);
    // Generated textures have no file to reload from.
    assert_eq!(pool.sources.len(), 2);
    assert_eq!(pool.sources.entries[1].source, "t/normal.png");
    assert_eq!((pool.sources.entries[1].image_index, pool.sources.entries[1].slot), (111, 1));
    assert_eq!(pool.sources.entries[1].kind, TextureKind::Albedo);
    assert!(assign_albedo_slots(&textures(), false).unwrap().sources.is_empty());
}

#[test]
fn a_texture_without_a_payload_fails() {
    let mut list = textures();
    list[2].locator = None;
    list[3].locator = None;
    assert_eq!(
        assign_albedo_slots(&list, true).unwrap_err(),
        MaterialError::TextureWithoutPayload { texture: 12 }
    );
}

#[test]
fn materials_resolve_to_slots() {
    let list = textures();
    let slots = assign_albedo_slots(&list, false).unwrap().slots;
    let mut stone = material(1);
    stone.albedo = Some(11);
    stone.normal_map = Some(11);
    stone.albedo_secondary = Some(12);
    stone.normal_secondary = Some(10);
    stone.emissive_map = Some(13);
    stone.orm_map = Some(10);
    stone.transparent = true;
    let mut sand = material(2);
    sand.normal_map = Some(10);
    let table = resolve_materials(&list, true, &slots, &vec![stone, sand, material(3)]).unwrap();
    let stone = table.materials[&1];
    assert_eq!((stone.texture_slot, stone.normal_map_slot), (1, 1));
    assert_eq!(stone.uniforms.albedo_secondary_index, 2);
    assert_eq!(stone.uniforms.normal_secondary_index, 2);
    assert_eq!(stone.uniforms.emissive_map_index, 3);
    assert_eq!(stone.uniforms.orm_map_index, 0);
    assert_eq!((stone.uniforms.transparent, stone.uniforms.see_through), (1, 1));
    assert_eq!(stone.uniforms.roughness, bits(0.5));
    // A normal map is claimed once, and unset maps are slot zero.
    assert_eq!(table.materials[&2].normal_map_slot, 2);
    assert_eq!((table.materials[&3].texture_slot, table.materials[&3].normal_map_slot), (0, 0));
    assert_eq!(table.normals.slots[&11], 1);
    assert_eq!(table.normals.slots[&10], 2);
    assert_eq!(table.normals.locators.len(), 2);
    assert_eq!(table.normals.sources.len(), 2);
    assert_eq!(table.normals.sources.entries[0].kind, TextureKind::NormalMap);
    assert_eq!(table.normals.sources.entries[0].slot, 1);
}

#[test]
fn the_first_missing_map_is_the_error() {
    let list = textures();
    let slots = assign_albedo_slots(&list, false).unwrap().slots;
    let mut m = material(5);
    m.albedo = Some(99);
    m.normal_map = Some(98);
    assert_eq!(
        resolve_materials(&list, false, &slots, &vec![m]).unwrap_err(),
        MaterialError::UnknownTexture { material: 5, map: MapKind::Albedo, texture: 99 }
    );
    m.albedo = None;
    assert_eq!(
        resolve_materials(&list, false, &slots, &vec![m]).unwrap_err(),
        MaterialError::UnknownTexture { material: 5, map: MapKind::NormalMap, texture: 98 }
    );
    for (map, set) in [
        (MapKind::AlbedoSecondary, 0),
        (MapKind::NormalSecondary, 1),
        (MapKind::EmissiveMap, 2),
        (MapKind::OrmMap, 3),
    ] {
        let mut m = material(6);
        match set {
            0 => m.albedo_secondary = Some(97),
            1 => m.normal_secondary = Some(97),
            2 => m.emissive_map = Some(97),
            _ => m.orm_map = Some(97),
        }
        assert_eq!(
            resolve_materials(&list, false, &slots, &vec![m]).unwrap_err(),
            MaterialError::UnknownTexture { material: 6, map, texture: 97 }
        );
    }
}

#[test]
fn a_normal_map_without_a_payload_fails() {
    let mut list = textures();
    let slots = assign_albedo_slots(&list, false).unwrap().slots;
    list[1].locator = None;
    let mut m = material(7);
    m.normal_map = Some(11);
    assert_eq!(
        resolve_materials(&list, false, &slots, &vec![m]).unwrap_err(),
        MaterialError::MapWithoutPayload { material: 7, map: MapKind::NormalMap, texture: 11 }
    );
}
