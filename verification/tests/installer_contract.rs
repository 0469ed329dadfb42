use shr_daw::installer_contract::{
    parse_version, shr_sampler_version_supported, version_supported, ContractComponent, ContractError, NumberError,
    VersionError,
};

#[test]
fn versions_have_exactly_three_numeric_components() {
    assert_eq!(parse_version("0.1.2"), Ok((0, 1, 2)));
    assert_eq!(parse_version("+10.20.30"), Ok((10, 20, 30)));
    assert_eq!(parse_version("1.2"), Err(VersionError::PatchMissing));
    assert_eq!(parse_version("1"), Err(VersionError::MinorMissing));
    assert_eq!(parse_version("1.2.3.4"), Err(VersionError::TooManyComponents));
    assert_eq!(parse_version(""), Err(VersionError::Number(NumberError::Empty)));
    assert_eq!(parse_version("1..3"), Err(VersionError::Number(NumberError::Empty)));
    assert_eq!(parse_version("1.x.3"), Err(VersionError::Number(NumberError::InvalidDigit)));
    assert_eq!(parse_version("-1.0.0"), Err(VersionError::Number(NumberError::InvalidDigit)));
    assert_eq!(parse_version("+.0.0"), Err(VersionError::Number(NumberError::InvalidDigit)));
    assert_eq!(parse_version("18446744073709551615.0.0"), Ok((u64::MAX, 0, 0)));
    assert_eq!(parse_version("18446744073709551616.0.0"), Err(VersionError::Number(NumberError::TooLarge)));
    assert_eq!(
        VersionError::TooManyComponents.message(),
        "version must contain exactly three numeric components"
    );
}

#[test]
fn parsed_versions_agree_with_the_standard_integer_reader() {
    for component in ["0", "7", "+7", "007", "", "+", "-", "-3", "1a", "99999999999999999999", "18446744073709551615"] {
        let version = format!("{component}.0.0");
        let expected = component.parse::<u64>().ok();
        assert_eq!(parse_version(&version).ok().map(|parsed| parsed.0), expected, "{component:?}");
    }
}

#[test]
fn supported_range_includes_minimum_and_excludes_maximum() {
    assert_eq!(version_supported("0.1.2", "0.1.2", "0.2.0"), Ok(true));
    assert_eq!(version_supported("0.1.1", "0.1.2", "0.2.0"), Ok(false));
    assert_eq!(version_supported("0.2.0", "0.1.2", "0.2.0"), Ok(false));
    assert_eq!(version_supported("0.1.9", "0.1.2", "0.2.0"), Ok(true));
    assert_eq!(version_supported("0.1.1", "0.1.2", "broken"), Ok(false));
    assert_eq!(version_supported("0.1.3", "0.1.2", "broken"), Err(VersionError::Number(NumberError::InvalidDigit)));
    assert_eq!(version_supported("0.1.3", "0.1.2", "1"), Err(VersionError::MinorMissing));
    assert_eq!(version_supported("0.1", "0.1.2", "0.2.0"), Err(VersionError::PatchMissing));
}

fn component(name: &str, minimum: Option<&str>, maximum: Option<&str>) -> ContractComponent {
    ContractComponent {
        name: name.to_string(),
        runtime_minimum: minimum.map(str::to_string),
        runtime_maximum_exclusive: maximum.map(str::to_string),
    }
}

#[test]
fn the_contract_answers_for_its_first_sampler_component() {
    let components = vec![
        component("shr-daw", None, None),
        component("shr-sampler", Some("0.4.0"), Some("0.5.0")),
        component("shr-sampler", Some("9.0.0"), Some("9.1.0")),
    ];
    assert_eq!(shr_sampler_version_supported(1, &components, "0.4.2"), Ok(true));
    assert_eq!(shr_sampler_version_supported(1, &components, "0.5.0"), Ok(false));
    assert_eq!(shr_sampler_version_supported(1, &components, "9.0.1"), Ok(false));
    assert_eq!(
        shr_sampler_version_supported(1, &components, "0.4"),
        Err(ContractError::Version(VersionError::PatchMissing))
    );
}

#[test]
fn the_contract_refuses_other_schemas_and_missing_bounds() {
    let complete = vec![component("shr-sampler", Some("0.1.0"), Some("1.0.0"))];
    assert_eq!(shr_sampler_version_supported(2, &complete, "0.2.0"), Err(ContractError::UnsupportedSchema));
    assert_eq!(
        shr_sampler_version_supported(1, &vec![component("other", None, None)], "0.2.0"),
        Err(ContractError::NoSampler)
    );
    assert_eq!(
        shr_sampler_version_supported(1, &vec![component("shr-sampler", None, Some("1.0.0"))], "0.2.0"),
        Err(ContractError::MinimumMissing)
    );
    assert_eq!(
        shr_sampler_version_supported(1, &vec![component("shr-sampler", Some("0.1.0"), None)], "0.2.0"),
        Err(ContractError::MaximumMissing)
    );
    assert_eq!(ContractError::NoSampler.message(), "compatibility contract has no SHR Sampler component");
    assert_eq!(
        ContractError::Version(VersionError::MinorMissing).message(),
        "version minor is missing"
    );
}
