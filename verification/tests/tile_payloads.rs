use std::io::Write;

use harbor::glb::{glb_container, glb_mesh_layout, pad_bytes, GlbLayoutError, MeshLayout};
use harbor::scene::{scene_mesh_plan, SceneMeshKind};
use harbor::routes::{poi_import_summary, route_request, HttpMethod, RequestAction, TileRoute};
use harbor::tile_bytes::{decode_tile_bytes, TileBytesError};

#[test]
fn pads_to_alignment() {
    let mut bytes = vec![1, 2, 3, 4, 5];
    pad_bytes(&mut bytes, 4, 0x20);
    assert_eq!(bytes, vec![1, 2, 3, 4, 5, 0x20, 0x20, 0x20]);
    let mut aligned = vec![1, 2, 3, 4];
    pad_bytes(&mut aligned, 4, 0);
    assert_eq!(aligned, vec![1, 2, 3, 4]);
}

#[test]
fn frames_a_glb_file() {
    let glb = glb_container(b"{\"a\":1}", &[9, 8, 7, 6]);
    assert_eq!(&glb[0..4], b"glTF");
    assert_eq!(u32::from_le_bytes(glb[4..8].try_into().unwrap()), 2);
    assert_eq!(u32::from_le_bytes(glb[8..12].try_into().unwrap()) as usize, glb.len());
    assert_eq!(u32::from_le_bytes(glb[12..16].try_into().unwrap()), 8);
    assert_eq!(&glb[16..20], b"JSON");
    assert_eq!(&glb[20..28], b"{\"a\":1} ");
    assert_eq!(u32::from_le_bytes(glb[28..32].try_into().unwrap()), 4);
    assert_eq!(&glb[32..36], b"BIN\0");
    assert_eq!(&glb[36..40], &[9, 8, 7, 6]);
    assert_eq!(glb.len(), 40);
}

#[test]
fn decompresses_gzip_tiles_and_passes_plain_ones() {
    let payload = b"vector tile bytes".to_vec();
    let mut encoder = flate2::write::GzEncoder::new(Vec::new(), flate2::Compression::default());
    encoder.write_all(&payload).unwrap();
    let compressed = encoder.finish().unwrap();
    assert_ne!(compressed, payload);
    assert_eq!(decode_tile_bytes("14/1/2", compressed), Ok(payload.clone()));
    assert_eq!(decode_tile_bytes("14/1/2", payload.clone()), Ok(payload));
}

#[test]
fn reports_broken_gzip_tiles() {
    let broken = vec![0x1f, 0x8b, 0x00, 0x01];
    let error = decode_tile_bytes("tile.pbf", broken).expect_err("broken gzip should fail");
    assert_eq!(error.label, "tile.pbf");
    assert_eq!(error.message(), "failed to decompress gzip tile tile.pbf");
    let _: &TileBytesError = &error;
}

#[test]
fn routes_requests() {
    assert_eq!(route_request(HttpMethod::Post, "/import_poi"), RequestAction::ImportPoi);
    assert_eq!(route_request(HttpMethod::Get, "/import_poi"), RequestAction::MethodNotAllowed);
    assert_eq!(route_request(HttpMethod::Post, "/data/1/2/3.glb"), RequestAction::MethodNotAllowed);
    assert_eq!(
        route_request(HttpMethod::Get, "/data/1/2/3.glb?x=1"),
        RequestAction::ServeTile(TileRoute { zoom: 1, x: 2, y: 3 })
    );
    assert_eq!(route_request(HttpMethod::Get, "/data/256/2/3.glb"), RequestAction::NotFound);
    assert_eq!(route_request(HttpMethod::Get, "/"), RequestAction::NotFound);
    assert_eq!(poi_import_summary(3, 12), "imported poi data: towns=3 streets=12");
}

#[test]
fn plans_scene_meshes_in_export_order() {
    let plan = scene_mesh_plan(true, Some("transportation"), true, false, true, true, false);
    let parts: Vec<(SceneMeshKind, String)> = plan.into_iter().map(|p| (p.kind, p.name)).collect();
    assert_eq!(
        parts,
        vec![
            (SceneMeshKind::Ground, "ground".to_string()),
            (SceneMeshKind::Transportation, "transportation".to_string()),
            (SceneMeshKind::BuildingRoof, "building_roof".to_string()),
            (SceneMeshKind::WaterSurface, "water_surface".to_string()),
            (SceneMeshKind::WaterBottom, "water_bottom".to_string()),
        ]
    );
    assert!(scene_mesh_plan(false, None, false, false, false, false, false).is_empty());
    let all = scene_mesh_plan(false, None, false, true, false, false, true);
    assert_eq!(all.len(), 2);
    assert_eq!(all[0].name, "building_wall");
    assert_eq!(all[1].name, "water_side");
}

#[test]
fn lays_out_mesh_data_in_the_binary_chunk() {
    assert_eq!(glb_mesh_layout(&[]), Err(GlbLayoutError::NoMeshes));
    assert_eq!(GlbLayoutError::NoMeshes.message(), "no meshes were provided for GLB export");
    let (layouts, total) = glb_mesh_layout(&[(3, 3), (1, 2)]).expect("layout");
    assert_eq!(
        layouts,
        vec![
            MeshLayout { position_offset: 0, position_length: 36, normal_offset: 36, normal_length: 36 },
            MeshLayout { position_offset: 72, position_length: 12, normal_offset: 84, normal_length: 24 },
        ]
    );
    assert_eq!(total, 108);
    assert_eq!(glb_mesh_layout(&[(usize::MAX / 4, 0)]), Err(GlbLayoutError::TooLarge));
}
