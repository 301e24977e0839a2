use bitchy::ui::ansi_art::{random_logo, LOGOS, LOGO_ACIDJAZZ, LOGO_DIAMOND, LOGO_MINIMAL};
#[test]
fn acidjazz_contains_bitchx() {
    let lower = LOGO_ACIDJAZZ.to_lowercase();
    assert!(
        lower.contains("bitchx") || lower.contains("b i t c h"),
        "acidjazz logo should contain bitchx or 'b i t c h'"
    );
}

#[test]
fn diamond_contains_ansi_escapes() {
    assert!(
        LOGO_DIAMOND.contains("\x1b["),
        "diamond logo should contain ANSI escape sequences"
    );
}

#[test]
fn minimal_contains_bitchx() {
    let lower = LOGO_MINIMAL.to_lowercase();
    assert!(
        lower.contains("bitchx"),
        "minimal logo should contain bitchx"
    );
}

#[test]
fn logos_array_has_three_variants() {
    assert_eq!(LOGOS.len(), 3);
}

#[test]
fn random_logo_is_one_of_the_three() {
    for _ in 0..20 {
        let logo = random_logo();
        assert!(logo == LOGO_DIAMOND || logo == LOGO_ACIDJAZZ || logo == LOGO_MINIMAL);
    }
}
