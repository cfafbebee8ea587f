use exex_examples::kona_cli::ValidationMode;

#[test]
fn validation_modes_are_read_in_any_case() {
    assert_eq!("trusted".parse::<ValidationMode>(), Ok(ValidationMode::Trusted));
    assert_eq!("Engine-API".parse::<ValidationMode>(), Ok(ValidationMode::EngineApi));
    assert_eq!(ValidationMode::parse("TRUSTED"), Ok(ValidationMode::Trusted));
}

#[test]
fn unknown_validation_mode_is_refused() {
    assert_eq!(
        ValidationMode::parse("Full"),
        Err("Invalid validation mode: Full".to_string())
    );
    assert_eq!(
        ValidationMode::from_lowercased("full", "FULL"),
        Err("Invalid validation mode: FULL".to_string())
    );
}
