use rust_engine::evaluate::{default_lazy_params, Score};
use rust_engine::tuning::types::{
    default_lazy_param_meta, default_param_meta, FullTuningConfig, LazyTuningConfig, ParamBounds,
    ParamMeta,
};

fn full_config(values: &[i32]) -> FullTuningConfig {
    FullTuningConfig { params: FullTuningConfig::unpack(values), meta: default_param_meta() }
}

#[test]
fn full_pack_unpack_round_trips() {
    let values: Vec<i32> = (0..1118).map(|i| (i % 97) - 40).collect();
    let cfg = full_config(&values);
    let packed = cfg.pack(&cfg.params);
    assert_eq!(packed, values);
    let again = FullTuningConfig::unpack(&packed);
    assert_eq!(cfg.pack(&again), values);
    // The pawn table's first and last ranks are not packed and read back as zero
    assert_eq!(again.pawn_pst[0], Score { mg: 0, eg: 0 });
    assert_eq!(again.pawn_pst[63], Score { mg: 0, eg: 0 });
    assert_eq!(again.pawn_pst[8], Score { mg: values[0], eg: values[1] });
}

#[test]
fn meta_has_one_entry_per_packed_value() {
    let values = vec![0; 1118];
    let cfg = full_config(&values);
    let meta = cfg.flat_param_meta();
    assert_eq!(meta.len(), cfg.pack(&cfg.params).len());
    // The rook table (group 3) is tuned, the knight table (group 1) is not
    assert!(meta[96 + 128 + 128].active);
    assert!(!meta[96].active);
}

#[test]
fn clamp_holds_active_values_to_bounds() {
    let values = vec![1000; 1118];
    let cfg = full_config(&values);
    let mut p = cfg.params;
    cfg.clamp(&mut p);
    let packed = cfg.pack(&p);
    let meta = cfg.flat_param_meta();
    for i in 0..packed.len() {
        if meta[i].active {
            assert!(packed[i] >= meta[i].bounds.min && packed[i] <= meta[i].bounds.max);
        } else {
            assert_eq!(packed[i], 1000);
        }
    }
    // Rook value (group 9) is active with bounds 400..560
    assert_eq!(p.rook_value, Score { mg: 560, eg: 560 });
}

#[test]
fn full_project_enforces_material_order() {
    let mut values = vec![0; 1118];
    // rook value mg/eg live right after the piece tables and the first three values
    let rook_value = 96 + 5 * 128 + 3 * 2;
    values[rook_value] = 10;
    values[rook_value + 1] = 10;
    let cfg = full_config(&values);
    let mut p = cfg.params;
    cfg.project(&mut p);
    // bishop value is 0, so the rook is raised to 100 and then clamped into 400..560
    assert_eq!(p.rook_value, Score { mg: 400, eg: 400 });
}

#[test]
fn lazy_project_and_clamp() {
    let cfg = LazyTuningConfig::new_default();
    let mut p = cfg.default_params();
    p.bishop_value = Score { mg: 100, eg: 100 };
    p.knight_value = Score { mg: 300, eg: 300 };
    cfg.project(&mut p);
    assert_eq!(p.bishop_value, Score { mg: 280, eg: 280 });
    let packed = cfg.pack(&p);
    assert_eq!(packed.len(), 746);
    let back = LazyTuningConfig::unpack(&packed);
    assert_eq!(cfg.pack(&back), packed);
}

#[test]
fn default_metas_match_their_groups() {
    let full = default_param_meta();
    assert_eq!(full.len(), 59);
    assert_eq!(full[9], ParamMeta { bounds: ParamBounds { min: 400, max: 560 }, active: true });
    let lazy = default_lazy_param_meta();
    assert!(lazy.iter().all(|m| m.active));
    assert_eq!(default_lazy_params().queen_value, Score { mg: 1025, eg: 936 });
}
