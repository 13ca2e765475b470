//! Scenarios for layer classification and the placeholder layer meshes.

use pcbgen::intermediate::model::{LayerType, PCBModel, Units};
use pcbgen::usdz::export::export_to_usdz;
use pcbgen::{build_copper_mesh, build_silkscreen_mesh, identify_layer_type};

#[test]
fn layer_names_cover_all_conventions() {
    assert_eq!(identify_layer_type("board-outline.gbr"), LayerType::EdgeCuts);
    assert_eq!(identify_layer_type("B.Cu.gbr"), LayerType::Copper);
    assert_eq!(identify_layer_type("bottom.silk.gbr"), LayerType::Silkscreen);
    assert_eq!(identify_layer_type("TOP.SILK.GBR"), LayerType::Silkscreen);
    // Unknown names default to edge cuts.
    assert_eq!(identify_layer_type("mystery.gbr"), LayerType::EdgeCuts);
}

#[test]
fn copper_mesh_is_a_placeholder_square() {
    let mesh = build_copper_mesh(&[], true, Some(1_600_000_000)).unwrap();
    assert_eq!(mesh.layer_type, LayerType::Copper);
    assert_eq!(mesh.vertices.len(), 4);
    assert_eq!(mesh.faces.len(), 1);
    assert_eq!(mesh.faces[0].vertices, vec![0, 1, 2, 3]);
    // The top copper sits at the board thickness.
    assert_eq!(mesh.vertices[0].position.z, 1_600_000_000);
    assert_eq!(mesh.vertices[0].normal.z, 1_000_000_000);
    // The bottom copper sits at height zero with a downward normal.
    let mesh = build_copper_mesh(&[], false, None).unwrap();
    assert_eq!(mesh.vertices[0].position.z, 0);
    assert_eq!(mesh.vertices[0].normal.z, -1_000_000_000);
}

#[test]
fn silkscreen_mesh_floats_off_the_board() {
    let mesh = build_silkscreen_mesh(&[], true, Some(1_600_000_000)).unwrap();
    assert_eq!(mesh.layer_type, LayerType::Silkscreen);
    assert_eq!(mesh.vertices.len(), 4);
    assert_eq!(mesh.faces.len(), 1);
    // One coat above the board's top.
    assert_eq!(mesh.vertices[0].position.z, 1_610_000_000);
    // And one coat below its bottom.
    let mesh = build_silkscreen_mesh(&[], false, Some(1_600_000_000)).unwrap();
    assert_eq!(mesh.vertices[0].position.z, -10_000_000);
}

#[test]
fn usdz_export_reports_failure() {
    let model = PCBModel { meshes: Vec::new(), units: Units::Millimeters };
    let r = export_to_usdz(&model, "out.usdz");
    assert_eq!(r.unwrap_err(), "USDZ export not yet implemented");
}
