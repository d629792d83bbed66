use yscale::config::{
    check_strip_count, config_n_in, config_n_out, default_buffer, default_device,
    default_format, default_period, default_sample_rate, graphic_gains, ConfigError, FormatCfg,
    RoutingPreset,
};
use yscale::routing::{build_matrix, RoutingError, RoutingMatrix};

fn cells(m: &RoutingMatrix<f64>) -> Vec<Vec<f64>> {
    (0..m.n_out()).map(|o| (0..m.n_in()).map(|i| m.get(o, i)).collect()).collect()
}

#[test]
fn matrix_set_get() {
    let mut m = RoutingMatrix::new(3, 2, 0.0);
    m.set(1, 2, 0.7);
    assert_eq!(m.get(1, 2), 0.7);
    assert_eq!(m.get(0, 2), 0.0);
    assert_eq!((m.n_in(), m.n_out()), (3, 2));
}

#[test]
fn matrix_identity() {
    let m = RoutingMatrix::identity(3, 0.0, 1.0);
    assert_eq!(cells(&m), vec![vec![1.0, 0.0, 0.0], vec![0.0, 1.0, 0.0], vec![0.0, 0.0, 1.0]]);
}

#[test]
fn matrix_presets() {
    let p = |x| cells(&RoutingMatrix::preset(x, 0.0, 0.5, 1.0));
    assert_eq!(p(RoutingPreset::Stereo), vec![vec![1.0, 0.0], vec![0.0, 1.0]]);
    assert_eq!(p(RoutingPreset::Mono), vec![vec![0.5, 0.5], vec![0.5, 0.5]]);
    assert_eq!(p(RoutingPreset::LeftToBoth), vec![vec![1.0, 0.0], vec![1.0, 0.0]]);
    assert_eq!(p(RoutingPreset::RightToBoth), vec![vec![0.0, 1.0], vec![0.0, 1.0]]);
    assert_eq!(p(RoutingPreset::Swap), vec![vec![0.0, 1.0], vec![1.0, 0.0]]);
}

#[test]
fn custom_matrix_shapes() {
    let rows = Some(vec![vec![1.0, 0.0], vec![0.0, 1.0], vec![0.5, 0.5]]);
    let m = build_matrix(RoutingPreset::Custom, &rows, 3, 0.0, 0.5, 1.0).unwrap();
    assert_eq!(m.n_in(), 2);
    assert_eq!(m.n_out(), 3);
    assert_eq!(m.get(2, 1), 0.5);
    assert_eq!(config_n_in(RoutingPreset::Custom, &rows), 2);
}

#[test]
fn routing_errors() {
    let none: Option<Vec<Vec<f64>>> = None;
    assert_eq!(
        build_matrix(RoutingPreset::Custom, &none, 2, 0.0, 0.5, 1.0).unwrap_err(),
        RoutingError::MissingMatrix
    );
    let rows = Some(vec![vec![1.0, 0.0]]);
    assert_eq!(
        build_matrix(RoutingPreset::Custom, &rows, 2, 0.0, 0.5, 1.0).unwrap_err(),
        RoutingError::RowCount { rows: 1, outputs: 2 }
    );
    let ragged = Some(vec![vec![1.0, 0.0], vec![1.0]]);
    assert_eq!(
        build_matrix(RoutingPreset::Custom, &ragged, 2, 0.0, 0.5, 1.0).unwrap_err(),
        RoutingError::RaggedRows
    );
    assert_eq!(
        build_matrix(RoutingPreset::Mono, &none, 3, 0.0, 0.5, 1.0).unwrap_err(),
        RoutingError::PresetNeedsStereo { outputs: 3 }
    );
    assert!(build_matrix(RoutingPreset::Swap, &none, 2, 0.0, 0.5, 1.0).is_ok());
}

#[test]
fn config_defaults() {
    assert_eq!(default_sample_rate(), 48_000);
    assert_eq!(default_device(), "hw:CARD=BossDAC,DEV=0");
    assert_eq!(default_format(), FormatCfg::S32Le);
    assert_eq!(default_period(), 1024);
    assert_eq!(default_buffer(), 4096);
    assert_eq!(RoutingPreset::default_preset(), RoutingPreset::Stereo);
}

#[test]
fn default_config_is_stereo() {
    let none: Option<Vec<Vec<f64>>> = None;
    assert_eq!(config_n_in(RoutingPreset::Stereo, &none), 2);
    assert_eq!(config_n_out(0), 2);
    assert_eq!(config_n_out(3), 3);
    let empty: Option<Vec<Vec<f64>>> = Some(Vec::new());
    assert_eq!(config_n_in(RoutingPreset::Custom, &empty), 2);
    let rows = Some(vec![vec![1.0, 0.0, 0.0]]);
    assert_eq!(config_n_in(RoutingPreset::Mono, &rows), 2);
}

#[test]
fn graphic_gain_list() {
    let g = graphic_gains(&vec![1.0, 2.0], 0.0).unwrap();
    assert_eq!(g.len(), 30);
    assert_eq!(g[1], 2.0);
    assert_eq!(g[29], 0.0);
    assert_eq!(
        graphic_gains(&vec![0.0; 31], 0.0).unwrap_err(),
        ConfigError::TooManyGraphicBands { given: 31 }
    );
    assert!(graphic_gains(&vec![0.0; 30], 0.0).is_ok());
}

#[test]
fn strip_count_rule() {
    assert!(check_strip_count(2, 2).is_ok());
    assert_eq!(check_strip_count(2, 3), Err(ConfigError::StripCount { outputs: 2, strips: 3 }));
}
