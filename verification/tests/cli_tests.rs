use stone_prover_cli::cli::{
    select_executable, Bootloader, ConfigArgs, Executable, ProveArgsError, Verifier,
};
use stone_prover_cli::zip::is_zip_file;

fn config(output: Option<&str>) -> ConfigArgs {
    ConfigArgs {
        prover_config_file: None,
        parameter_file: None,
        output_file: output.map(|s| s.to_owned()),
        fact_topologies_file: None,
    }
}

#[test]
fn latest_bootloader_is_v0_13_0() {
    assert!(matches!(Bootloader::latest(), Bootloader::V0_13_0));
}

#[test]
fn latest_compatible_depends_on_verifier() {
    assert!(matches!(
        Bootloader::latest_compatible(&Verifier::Stone),
        Bootloader::V0_13_0
    ));
    assert!(matches!(
        Bootloader::latest_compatible(&Verifier::L1),
        Bootloader::V0_12_3
    ));
}

#[test]
fn bootloader_from_str_knows_both_versions() {
    assert!(matches!(
        Bootloader::from_str("0.12.3"),
        Ok(Bootloader::V0_12_3)
    ));
    assert!(matches!(
        Bootloader::from_str("0.13.0"),
        Ok(Bootloader::V0_13_0)
    ));
    match Bootloader::from_str("bootloader.json") {
        Ok(Bootloader::Custom(path)) => assert_eq!(path, "bootloader.json"),
        other => panic!("expected a custom path, got {:?}", other),
    }
}

#[test]
fn output_file_defaults_to_proof_json() {
    assert_eq!(config(None).output_file(), "proof.json");
    assert_eq!(config(Some("out.json")).output_file(), "out.json");
}

#[test]
fn no_bootloader_mode_refuses_conflicting_arguments() {
    let one = vec!["p1.json".to_owned()];
    let two = vec!["p1.json".to_owned(), "p2.json".to_owned()];
    assert_eq!(
        select_executable(false, None, &None, true, one.clone()),
        Err(ProveArgsError::FactTopologiesWithoutBootloader)
    );
    assert_eq!(
        select_executable(false, Some(Bootloader::V0_12_3), &None, false, one.clone()),
        Err(ProveArgsError::BootloaderVersionWithoutBootloader)
    );
    assert_eq!(
        select_executable(false, None, &None, false, two),
        Err(ProveArgsError::MultipleProgramsWithoutBootloader)
    );
}

#[test]
fn no_bootloader_mode_selects_the_single_program() {
    let one = vec!["p1.json".to_owned()];
    match select_executable(false, None, &None, false, one) {
        Ok(Executable::BareMetal(p)) => assert_eq!(p, "p1.json"),
        other => panic!("expected a bare program, got {:?}", other),
    }
}

#[test]
fn bootloader_mode_keeps_all_programs_and_chooses_a_version() {
    let two = vec!["p1.json".to_owned(), "p2.json".to_owned()];
    match select_executable(true, None, &Some(Verifier::L1), false, two.clone()) {
        Ok(Executable::WithBootloader(b, ps)) => {
            assert!(matches!(b, Bootloader::V0_12_3));
            assert_eq!(ps, two);
        }
        other => panic!("expected a bootloader run, got {:?}", other),
    }
    match select_executable(true, None, &None, false, two.clone()) {
        Ok(Executable::WithBootloader(b, _)) => assert!(matches!(b, Bootloader::V0_13_0)),
        other => panic!("expected a bootloader run, got {:?}", other),
    }
    match select_executable(
        true,
        Some(Bootloader::Custom("b.json".to_owned())),
        &None,
        true,
        two,
    ) {
        Ok(Executable::WithBootloader(Bootloader::Custom(p), _)) => assert_eq!(p, "b.json"),
        other => panic!("expected the named bootloader, got {:?}", other),
    }
}

#[test]
fn test_is_zip_file() {
    assert!(is_zip_file("cairo_pie.zip"));
    assert!(!is_zip_file("program.json"));
}

#[test]
fn is_zip_file_looks_at_the_final_component() {
    assert!(is_zip_file("dir/cairo_pie.zip"));
    assert!(is_zip_file("/a/b/c.zip"));
    assert!(!is_zip_file("dir.zip/program.json"));
    assert!(is_zip_file("archive.zip/"));
}

#[test]
fn is_zip_file_edge_cases() {
    assert!(!is_zip_file(""));
    assert!(!is_zip_file(".zip"));
    assert!(!is_zip_file("dir/.zip"));
    assert!(!is_zip_file("A.ZIP"));
    assert!(!is_zip_file("zip"));
    assert!(is_zip_file("a..zip"));
}
