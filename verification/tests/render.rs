use live_runtime::live_float::LiveFloat;
use live_runtime::platform::{CxPlatformDrawCall, CxPlatformGeometry};
use live_runtime::render::{
    canvas_clear_color, canvas_clear_depth, color_target, depth_target, pass_dpi_factor,
    BufferCounters, ColorTarget, CxPassColorTexture, DepthTarget, PassClearColor, PassClearDepth,
    Vec4,
};

fn float(v: f64) -> LiveFloat {
    LiveFloat::from_bits(v.to_bits())
}

fn color(v: f64) -> Vec4 {
    Vec4 { x: float(v), y: float(v), z: float(v), w: float(1.0) }
}

#[test]
fn targets_are_cleared_as_their_textures_ask() {
    let init = CxPassColorTexture { clear_color: PassClearColor::InitWith(color(0.5)), texture_id: 3 };
    let clear = CxPassColorTexture { clear_color: PassClearColor::ClearWith(color(0.25)), texture_id: 4 };
    assert_eq!(canvas_clear_color(color(0.0), &vec![]), color(0.0));
    assert_eq!(canvas_clear_color(color(0.0), &vec![init, clear]), color(0.5));
    assert_eq!(canvas_clear_color(color(0.0), &vec![clear, init]), color(0.25));
    assert_eq!(canvas_clear_depth(PassClearDepth::InitWith(float(1.0))), float(1.0));
    assert_eq!(canvas_clear_depth(PassClearDepth::ClearWith(float(0.5))), float(0.5));
    assert_eq!(color_target(&init), ColorTarget { texture_id: 3, init_only: true, clear_color: color(0.5) });
    assert_eq!(color_target(&clear), ColorTarget { texture_id: 4, init_only: false, clear_color: color(0.25) });
    assert_eq!(
        depth_target(8, PassClearDepth::InitWith(float(1.0))),
        DepthTarget { texture_id: 8, init_only: true, clear_depth: float(1.0) }
    );
    assert_eq!(
        depth_target(8, PassClearDepth::ClearWith(float(1.0))),
        DepthTarget { texture_id: 8, init_only: false, clear_depth: float(1.0) }
    );
    assert_eq!(pass_dpi_factor(Some(float(2.0)), float(1.0)), float(2.0));
    assert_eq!(pass_dpi_factor(None, float(1.5)), float(1.5));
}

#[test]
fn buffers_are_handed_out_once() {
    let mut counters = BufferCounters { vertex_buffers: 10, index_buffers: 20, vaos: 30 };
    let mut draw_call = CxPlatformDrawCall { vao: None, inst_vb_id: None };
    let mut geometry = CxPlatformGeometry { vb_id: None, ib_id: None };

    assert!(counters.prepare_instances(&mut draw_call, false));
    assert_eq!(draw_call.inst_vb_id, Some(10));
    assert!(!counters.prepare_instances(&mut draw_call, false));
    assert!(counters.prepare_instances(&mut draw_call, true));
    assert_eq!(draw_call.inst_vb_id, Some(10));
    assert_eq!(counters.vertex_buffers, 11);

    assert!(counters.prepare_geometry(&mut geometry, false));
    assert_eq!((geometry.vb_id, geometry.ib_id), (Some(11), Some(20)));
    assert!(!counters.prepare_geometry(&mut geometry, false));
    assert!(counters.prepare_geometry(&mut geometry, true));
    geometry.ib_id = None;
    assert!(counters.prepare_geometry(&mut geometry, false));
    assert_eq!((geometry.vb_id, geometry.ib_id), (Some(11), Some(21)));
    assert_eq!(counters, BufferCounters { vertex_buffers: 12, index_buffers: 22, vaos: 30 });

    assert!(counters.prepare_vao(&mut draw_call, 5, &geometry));
    let vao = draw_call.vao.unwrap();
    assert_eq!(vao.vao_id, 30);
    assert_eq!(vao.shader_id, Some(5));
    assert_eq!((vao.inst_vb_id, vao.geom_vb_id, vao.geom_ib_id), (Some(10), Some(11), Some(21)));
    assert!(!counters.prepare_vao(&mut draw_call, 5, &geometry));
    assert!(counters.prepare_vao(&mut draw_call, 6, &geometry));
    assert_eq!(draw_call.vao.unwrap().vao_id, 30);
    assert_eq!(draw_call.vao.unwrap().shader_id, Some(6));
    assert_eq!(counters.vaos, 31);
}
