use yscale::config::{crossover_edges, BandKindCfg, ConfigError, CrossoverEdges, XoverKindCfg, XoverRole};
use yscale::crossover::{
    bessel_sections, butterworth_sections, linkwitz_riley_half, BandKind, CrossoverKind,
    SectionPlan,
};
use yscale::eq::GraphicEq30;

#[test]
fn butterworth_plans() {
    assert_eq!(butterworth_sections(0), SectionPlan { second_order: 0, first_order: false });
    assert_eq!(butterworth_sections(1), SectionPlan { second_order: 0, first_order: true });
    assert_eq!(butterworth_sections(5), SectionPlan { second_order: 2, first_order: true });
    assert_eq!(butterworth_sections(8), SectionPlan { second_order: 4, first_order: false });
}

#[test]
fn bessel_plans_clamp_order() {
    assert_eq!(bessel_sections(0), SectionPlan { second_order: 0, first_order: true });
    assert_eq!(bessel_sections(3), SectionPlan { second_order: 1, first_order: true });
    assert_eq!(bessel_sections(9), SectionPlan { second_order: 2, first_order: false });
}

#[test]
fn stage_counts() {
    for order in 1..=8 {
        assert_eq!(CrossoverKind::Butterworth.stage_count(order), (order + 1) / 2);
    }
    assert_eq!(CrossoverKind::LinkwitzRiley.stage_count(4), 2);
    assert_eq!(CrossoverKind::LinkwitzRiley.stage_count(8), 4);
    assert_eq!(CrossoverKind::LinkwitzRiley.stage_count(1), 2);
    assert_eq!(CrossoverKind::Bessel.stage_count(4), 2);
    assert_eq!(linkwitz_riley_half(0), 1);
    assert_eq!(linkwitz_riley_half(7), 3);
    assert_eq!(CrossoverKind::LinkwitzRiley.plan(6).1, 2);
}

#[test]
fn kinds_from_config() {
    assert_eq!(CrossoverKind::from(XoverKindCfg::LinkwitzRiley), CrossoverKind::LinkwitzRiley);
    assert_eq!(CrossoverKind::from(XoverKindCfg::Butterworth), CrossoverKind::Butterworth);
    assert_eq!(BandKind::from(BandKindCfg::HighShelf), BandKind::HighShelf);
    assert_eq!(BandKind::from(BandKindCfg::AllPass), BandKind::AllPass);
}

#[test]
fn graphic_eq_bands() {
    let mut eq = GraphicEq30::flat(0.0);
    eq.set_band(17, 6.0);
    eq.set_band(30, 9.0);
    assert_eq!(eq.gain(17), 6.0);
    assert_eq!(eq.gains().iter().filter(|g| **g != 0.0).count(), 1);
    let eq2 = GraphicEq30::from_gains([1.5; 30]);
    assert_eq!(eq2.gain(29), 1.5);
}

#[test]
fn crossover_roles() {
    assert_eq!(CrossoverKind::from(XoverKindCfg::Bessel), CrossoverKind::Bessel);
    assert_eq!(crossover_edges(XoverRole::LowPass, 80.0, None), Ok(CrossoverEdges::LowPass { freq: 80.0 }));
    assert_eq!(
        crossover_edges(XoverRole::HighPass, 2000.0, Some(9.0)),
        Ok(CrossoverEdges::HighPass { freq: 2000.0 })
    );
    assert_eq!(
        crossover_edges(XoverRole::BandPass, 300.0, Some(3000.0)),
        Ok(CrossoverEdges::BandPass { low: 300.0, high: 3000.0 })
    );
    assert_eq!(crossover_edges(XoverRole::BandPass, 300.0, None), Err(ConfigError::MissingFreqHigh));
}
