use starknet_crypto::{pedersen_hash, FieldElement};
use stone_prover_cli::felt::Felt;
use stone_prover_cli::program_hash::{
    builtin_to_field_element, compute_hash_chain, compute_program_hash_chain, HashChainError,
    MaybeRelocatable, ProgramHashError, Relocatable, StrippedProgram,
};

fn felt(x: u64) -> Felt {
    Felt::from_u64(x)
}

fn cell(x: u64) -> MaybeRelocatable {
    MaybeRelocatable::Int(felt(x))
}

fn program(main: usize, builtins: Vec<&[u8]>, data: Vec<u64>) -> StrippedProgram {
    StrippedProgram {
        data: data.into_iter().map(cell).collect(),
        builtins: builtins.into_iter().map(|b| b.to_vec()).collect(),
        main,
    }
}

fn hash_hex(p: &StrippedProgram, version: usize) -> String {
    compute_program_hash_chain(p, version).unwrap().to_hex()
}

/// The same construction computed independently with the outside library:
/// builds the length-prefixed sequence and folds it right to left.
fn reference_hash(main: u64, builtins: &[&[u8]], data: &[u64], version: u64) -> FieldElement {
    let mut body: Vec<FieldElement> = vec![
        FieldElement::from(version),
        FieldElement::from(main),
        FieldElement::from(builtins.len() as u64),
    ];
    for name in builtins {
        let stripped = match name.strip_suffix(b"_builtin") {
            Some(s) => s,
            None => name,
        };
        body.push(FieldElement::from_byte_slice_be(stripped).unwrap());
    }
    for d in data {
        body.push(FieldElement::from(*d));
    }
    let mut all = vec![FieldElement::from(body.len() as u64)];
    all.extend(body);
    all.into_iter()
        .rev()
        .reduce(|x, y| pedersen_hash(&y, &x))
        .unwrap()
}

#[test]
fn pedersen_chain_matches_library_test_vector() {
    // A known input/output pair of the outside Pedersen implementation,
    // reached through the chain of exactly two elements.
    let a = FieldElement::from_hex_be(
        "03d937c035c878245caf64531a5756109c53068da139362728feb561405371cb",
    )
    .unwrap();
    let b = FieldElement::from_hex_be(
        "0208a0a10250e382e1e4bbe2880906c2791bf6275695e02fbbc6aeff9cd8b31a",
    )
    .unwrap();
    let fa = Felt::from_bytes_be(&a.to_bytes_be().to_vec()).unwrap();
    let fb = Felt::from_bytes_be(&b.to_bytes_be().to_vec()).unwrap();
    let chained = compute_hash_chain(vec![fa, fb]).unwrap();
    assert_eq!(
        chained.to_hex(),
        "0x30e480bed5fe53fa909cc0f8c4d99b8f9f2c016be4c41e13a4848797979c662"
    );
}

#[test]
fn hash_chain_of_single_element_is_that_element() {
    let r = compute_hash_chain(vec![felt(42)]).unwrap();
    assert_eq!(r.to_bytes_be(), felt(42).to_bytes_be());
}

#[test]
fn hash_chain_of_empty_sequence_is_an_error() {
    assert_eq!(
        compute_hash_chain(Vec::new()).unwrap_err(),
        HashChainError::EmptyData
    );
}

#[test]
fn hash_chain_is_right_associative() {
    let (a, b, c) = (7u64, 11u64, 13u64);
    let ours = compute_hash_chain(vec![felt(a), felt(b), felt(c)]).unwrap();
    let (fa, fb, fc) = (
        FieldElement::from(a),
        FieldElement::from(b),
        FieldElement::from(c),
    );
    let right = pedersen_hash(&fa, &pedersen_hash(&fb, &fc));
    let left = pedersen_hash(&pedersen_hash(&fa, &fb), &fc);
    assert_eq!(ours.to_bytes_be(), right.to_bytes_be().to_vec());
    assert_ne!(ours.to_bytes_be(), left.to_bytes_be().to_vec());
}

#[test]
fn program_hash_matches_independent_construction() {
    let p = program(5, vec![b"output", b"range_check_builtin"], vec![1, 2, 3]);
    let ours = compute_program_hash_chain(&p, 0).unwrap();
    let reference = reference_hash(5, &[b"output", b"range_check_builtin"], &[1, 2, 3], 0);
    assert_eq!(ours.to_bytes_be(), reference.to_bytes_be().to_vec());
}

#[test]
fn repeated_invocations_are_identical() {
    let p = program(7, vec![b"output", b"pedersen"], vec![10, 20, 30]);
    let first = hash_hex(&p, 0);
    let second = hash_hex(&p, 0);
    let third = hash_hex(&p, 0);
    assert_eq!(first, second);
    assert_eq!(second, third);
}

#[test]
fn any_single_change_changes_the_hash() {
    let base = program(1, vec![b"output", b"pedersen"], vec![4, 5]);
    let base_hash = hash_hex(&base, 0);

    // Another entry point.
    assert_ne!(hash_hex(&program(2, vec![b"output", b"pedersen"], vec![4, 5]), 0), base_hash);
    // A builtin renamed.
    assert_ne!(hash_hex(&program(1, vec![b"output", b"ecdsa"], vec![4, 5]), 0), base_hash);
    // Builtin order swapped.
    assert_ne!(hash_hex(&program(1, vec![b"pedersen", b"output"], vec![4, 5]), 0), base_hash);
    // A builtin dropped.
    assert_ne!(hash_hex(&program(1, vec![b"output"], vec![4, 5]), 0), base_hash);
    // A builtin added.
    assert_ne!(
        hash_hex(&program(1, vec![b"output", b"pedersen", b"ecdsa"], vec![4, 5]), 0),
        base_hash
    );
    // A data cell changed.
    assert_ne!(hash_hex(&program(1, vec![b"output", b"pedersen"], vec![4, 6]), 0), base_hash);
    // Data order swapped.
    assert_ne!(hash_hex(&program(1, vec![b"output", b"pedersen"], vec![5, 4]), 0), base_hash);
    // A data cell dropped.
    assert_ne!(hash_hex(&program(1, vec![b"output", b"pedersen"], vec![4]), 0), base_hash);
    // Another version tag.
    assert_ne!(hash_hex(&base, 1), base_hash);
}

#[test]
fn empty_program_still_hashes() {
    let p = program(0, vec![], vec![]);
    let r = compute_program_hash_chain(&p, 0).unwrap();
    let reference = reference_hash(0, &[], &[], 0);
    assert_eq!(r.to_bytes_be(), reference.to_bytes_be().to_vec());
}

#[test]
fn length_prefix_distinguishes_overlapping_programs() {
    // The second body extends the first by one leading zero data cell; only
    // the length element keeps their chains apart at the head.
    let p1 = program(0, vec![], vec![7, 8]);
    let p2 = program(0, vec![], vec![0, 7, 8]);
    assert_ne!(hash_hex(&p1, 0), hash_hex(&p2, 0));
}

#[test]
fn builtin_suffix_is_stripped() {
    let with_suffix = builtin_to_field_element(&b"range_check_builtin".to_vec()).unwrap();
    let without = builtin_to_field_element(&b"range_check".to_vec()).unwrap();
    assert_eq!(with_suffix.to_bytes_be(), without.to_bytes_be());

    let p1 = program(3, vec![b"range_check_builtin"], vec![9]);
    let p2 = program(3, vec![b"range_check"], vec![9]);
    assert_eq!(hash_hex(&p1, 0), hash_hex(&p2, 0));
}

#[test]
fn too_long_builtin_name_is_rejected_by_name() {
    let long = b"a_builtin_name_well_over_the_thirty_one_byte_limit".to_vec();
    let p = StrippedProgram {
        data: vec![cell(1)],
        builtins: vec![b"output".to_vec(), long.clone()],
        main: 0,
    };
    let err = compute_program_hash_chain(&p, 0).unwrap_err();
    assert_eq!(err, ProgramHashError::InvalidProgramBuiltin(long));
}

#[test]
fn exactly_thirty_one_bytes_still_encode() {
    let name = vec![b'x'; 31];
    assert!(builtin_to_field_element(&name).is_ok());
    let long = vec![b'x'; 32];
    assert!(builtin_to_field_element(&long).is_err());
    // The suffix is stripped before the width check.
    let mut suffixed = vec![b'x'; 31];
    suffixed.extend_from_slice(b"_builtin");
    assert!(builtin_to_field_element(&suffixed).is_ok());
}

#[test]
fn builtin_errors_take_precedence_over_data_errors() {
    let long = vec![b'y'; 40];
    let p = StrippedProgram {
        data: vec![MaybeRelocatable::RelocatableValue(Relocatable {
            segment_index: 0,
            offset: 0,
        })],
        builtins: vec![long.clone()],
        main: 0,
    };
    let err = compute_program_hash_chain(&p, 0).unwrap_err();
    assert_eq!(err, ProgramHashError::InvalidProgramBuiltin(long));
}

#[test]
fn the_first_offending_builtin_is_named() {
    let first = vec![b'a'; 40];
    let second = vec![b'b'; 40];
    let p = StrippedProgram {
        data: vec![],
        builtins: vec![b"output".to_vec(), first.clone(), second],
        main: 0,
    };
    let err = compute_program_hash_chain(&p, 0).unwrap_err();
    assert_eq!(err, ProgramHashError::InvalidProgramBuiltin(first));
}

#[test]
fn relocatable_data_cell_is_rejected() {
    let p = StrippedProgram {
        data: vec![
            cell(1),
            MaybeRelocatable::RelocatableValue(Relocatable {
                segment_index: 2,
                offset: 17,
            }),
        ],
        builtins: vec![b"output".to_vec()],
        main: 0,
    };
    let err = compute_program_hash_chain(&p, 0).unwrap_err();
    assert_eq!(err, ProgramHashError::InvalidProgramData);
}
