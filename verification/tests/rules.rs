use gps_trip::air::{
    evaluate_rule, transition_rules, AirError, Assertion, ConstraintVariant, GpsAir, Violation,
};
use gps_trip::field::{decode_signed, embed_signed, field_add, field_sub, reduce, MODULUS};
use gps_trip::gps::PublicInputs;
use gps_trip::normalize::{checked_next_power_of_two, is_power_of_two, normalize_point};
use gps_trip::options::{ConfigError, FieldExtension, ProofOptions};
use gps_trip::prover::{GpsProver, ProvingError, MIN_ENGINE_TRACE_LENGTH};
use gps_trip::segment::GpsPoint;
use gps_trip::trace::{extract, trace_steps, ShapeError, StepRecord, Trace, TraceInfo};
use gps_trip::trip::{check_tracks, distribute_timestamps, TrackError};
use gps_trip::utils::{extract_timestamp, timestamp_or_zero, UnixTime};
use gps_trip::verdict::{
    admit_proof, classify, verify_gps_trip, EngineFailure, VerificationError,
};

#[test]
fn field_arithmetic_wraps_at_the_modulus() {
    let half = (1u128 << 127) - 45 * (1u128 << 39);
    assert_eq!(MODULUS, half + half + 1);
    assert_eq!(reduce(MODULUS), 0);
    assert_eq!(reduce(MODULUS - 1), MODULUS - 1);
    assert_eq!(reduce(u128::MAX), u128::MAX - MODULUS);
    assert_eq!(field_add(MODULUS - 1, 5), 4);
    assert_eq!(field_add(u128::MAX, u128::MAX), 2 * (u128::MAX - MODULUS));
    assert_eq!(field_sub(3, 5), MODULUS - 2);
    assert_eq!(field_sub(5, 3), 2);
    assert_eq!(field_sub(0, 0), 0);
}

#[test]
fn signed_values_go_into_the_field_and_back() {
    assert_eq!(embed_signed(0), 0);
    assert_eq!(embed_signed(7), 7);
    assert_eq!(embed_signed(-7), MODULUS - 7);
    assert_eq!(embed_signed(i64::MIN), MODULUS - (1u128 << 63));
    for v in [0, 1, -1, 1_800_000_000, -1_800_000_000, i64::MAX, i64::MIN] {
        assert_eq!(decode_signed(embed_signed(v)), Some(v));
    }
    assert_eq!(decode_signed(1u128 << 63), None);
    assert_eq!(decode_signed(MODULUS - (1u128 << 63) - 1), None);
    assert_eq!(decode_signed(MODULUS), None);
    assert_eq!(decode_signed(u128::MAX), None);
}

#[test]
fn powers_of_two() {
    assert_eq!(checked_next_power_of_two(0), Some(1));
    assert_eq!(checked_next_power_of_two(1), Some(1));
    assert_eq!(checked_next_power_of_two(3), Some(4));
    assert_eq!(checked_next_power_of_two(1024), Some(1024));
    assert_eq!(checked_next_power_of_two(1025), Some(2048));
    assert_eq!(checked_next_power_of_two(usize::MAX), None);
    assert_eq!(checked_next_power_of_two(usize::MAX / 2 + 1), Some(usize::MAX / 2 + 1));
    assert!(is_power_of_two(1) && is_power_of_two(64));
    assert!(!is_power_of_two(0) && !is_power_of_two(12));
}

#[test]
fn waypoint_is_encoded_in_the_field() {
    let step = normalize_point(&GpsPoint { lat: -1, lon: 2, _time: u64::MAX });
    assert_eq!(step.lat_fixed, MODULUS - 1);
    assert_eq!(step.lon_fixed, 2);
    assert_eq!(step.time, u64::MAX as u128);
    assert_eq!(GpsPoint::from_reading(1, 2, -5), GpsPoint { lat: 1, lon: 2, _time: 0 });
    assert_eq!(GpsPoint::from_reading(1, 2, 5), GpsPoint { lat: 1, lon: 2, _time: 5 });
}

#[test]
fn every_rule_of_the_options_is_checked_in_order() {
    let good = ProofOptions::new(32, 16, 0, FieldExtension::Base, 8, 127);
    assert_eq!(good, ProofOptions::standard());
    assert_eq!(good.validate(1), Ok(()));
    assert_eq!(good.validate(15), Ok(()));
    assert_eq!(good.validate(16), Err(ConfigError::BlowupBelowDegree));
    let with = |change: fn(&mut ProofOptions)| {
        let mut options = good;
        change(&mut options);
        options.validate(1)
    };
    assert_eq!(with(|o| o.num_queries = 0), Err(ConfigError::NumQueries));
    assert_eq!(with(|o| o.num_queries = 256), Err(ConfigError::NumQueries));
    assert_eq!(with(|o| o.num_queries = 255), Ok(()));
    assert_eq!(with(|o| o.blowup_factor = 1), Err(ConfigError::BlowupFactor));
    assert_eq!(with(|o| o.blowup_factor = 12), Err(ConfigError::BlowupFactor));
    assert_eq!(with(|o| o.blowup_factor = 256), Err(ConfigError::BlowupFactor));
    assert_eq!(with(|o| o.blowup_factor = 2), Ok(()));
    assert_eq!(with(|o| o.blowup_factor = 128), Ok(()));
    assert_eq!(with(|o| o.grinding_factor = 33), Err(ConfigError::GrindingFactor));
    assert_eq!(with(|o| o.grinding_factor = 32), Ok(()));
    assert_eq!(with(|o| o.fri_folding_factor = 1), Err(ConfigError::FoldingFactor));
    assert_eq!(with(|o| o.fri_folding_factor = 6), Err(ConfigError::FoldingFactor));
    assert_eq!(with(|o| o.fri_folding_factor = 32), Err(ConfigError::FoldingFactor));
    assert_eq!(with(|o| o.fri_folding_factor = 16), Ok(()));
    assert_eq!(with(|o| o.fri_remainder_max_degree = 126), Err(ConfigError::RemainderDegree));
    assert_eq!(with(|o| o.fri_remainder_max_degree = 511), Err(ConfigError::RemainderDegree));
    assert_eq!(with(|o| o.fri_remainder_max_degree = 0), Ok(()));
    assert_eq!(with(|o| o.fri_remainder_max_degree = 255), Ok(()));
    assert_eq!(
        with(|o| {
            o.num_queries = 0;
            o.blowup_factor = 3;
        }),
        Err(ConfigError::NumQueries)
    );
}

#[test]
fn columns_that_are_no_trace_are_refused() {
    let defect = |columns: Vec<Vec<u128>>| Trace::init(columns).err();
    assert_eq!(defect(vec![]), Some(ShapeError::NoColumns));
    assert_eq!(defect(vec![vec![0]; 256]), Some(ShapeError::TooWide));
    assert_eq!(defect(vec![vec![]]), Some(ShapeError::BadLength));
    assert_eq!(defect(vec![vec![0; 3]]), Some(ShapeError::BadLength));
    assert_eq!(defect(vec![vec![0; 2], vec![0; 4]]), Some(ShapeError::RaggedColumns));
    assert_eq!(defect(vec![vec![0; 2], vec![0, MODULUS]]), Some(ShapeError::NonCanonicalCell));
    assert_eq!(defect(vec![vec![0; 3], vec![0, MODULUS]]), Some(ShapeError::BadLength));
    assert_eq!(defect(vec![vec![0; 2], vec![0, MODULUS - 1]]), None);
    assert_eq!(defect(vec![vec![5]; 255]), None);
}

#[test]
fn trace_shape_is_validated() {
    assert!(TraceInfo::new(4, 8).is_some());
    assert!(TraceInfo::new(1, 1).is_some());
    assert!(TraceInfo::new(0, 8).is_none());
    assert!(TraceInfo::new(256, 8).is_none());
    assert!(TraceInfo::new(4, 0).is_none());
    assert!(TraceInfo::new(4, 6).is_none());
    let info = TraceInfo::new(4, 16).unwrap();
    assert_eq!((info.width(), info.length()), (4, 16));
    let trace = Trace::init(vec![vec![1, 2], vec![3, 4]]).unwrap();
    assert_eq!((trace.info().width(), trace.info().length()), (2, 2));
    assert_eq!(trace.read_row(1), vec![2, 4]);
    assert_eq!(trace.get(1, 0), 3);
    assert_eq!(trace.columns(), &vec![vec![1, 2], vec![3, 4]]);
}

#[test]
fn endpoints_are_read_in_statement_order() {
    let trace =
        Trace::init(vec![vec![1, 2, 3, 4], vec![5, 6, 7, 8], vec![9, 10, 11, 12], vec![0, 1, 1, 1]])
            .unwrap();
    let inputs = extract(&trace);
    assert_eq!(
        inputs,
        PublicInputs { lat: 1, lon: 5, next_lat: 4, next_lon: 8, time: 9, next_time: 12 }
    );
    assert_eq!(inputs.to_elements(), vec![1, 5, 4, 8, 9, 12]);
    assert_eq!(PublicInputs::from_elements(&vec![1, 5, 4, 8, 9, 12]), Some(inputs));
    assert_eq!(PublicInputs::from_elements(&vec![1, 5, 4, 8, 9]), None);
    assert!(inputs.is_canonical());
    assert!(!PublicInputs { next_time: MODULUS, ..inputs }.is_canonical());

    let narrow = Trace::init(vec![vec![1, 2], vec![5, 6]]).unwrap();
    assert_eq!(
        extract(&narrow),
        PublicInputs { lat: 1, lon: 5, next_lat: 2, next_lon: 6, time: 0, next_time: 0 }
    );
    assert_eq!(GpsProver::new(ProofOptions::standard()).get_pub_inputs(&trace), inputs);
}

#[test]
fn time_aware_rule_is_the_elapsed_time() {
    let info = TraceInfo::new(4, 8).unwrap();
    let inputs = PublicInputs { lat: 1, lon: 2, next_lat: 3, next_lon: 4, time: 5, next_time: 6 };
    let air = GpsAir::new(info, inputs, ProofOptions::standard()).unwrap();
    assert_eq!(air.variant(), ConstraintVariant::TimeDeltaOnly);
    assert_eq!(air.evaluate_transition(&vec![0, 0, 10, 0], &vec![9, 9, 15, 5]), vec![0]);
    assert_eq!(air.evaluate_transition(&vec![0, 0, 10, 0], &vec![9, 9, 15, 6]), vec![1]);
    assert_eq!(air.evaluate_transition(&vec![0, 0, 10, 0], &vec![9, 9, 15, 4]), vec![MODULUS - 1]);
    assert_eq!(
        air.evaluate_transition(&vec![0, 0, 15, 0], &vec![0, 0, 10, MODULUS - 5]),
        vec![0]
    );
    assert_eq!(
        air.get_assertions(),
        vec![
            Assertion { column: 0, step: 0, value: 1 },
            Assertion { column: 1, step: 0, value: 2 },
            Assertion { column: 0, step: 7, value: 3 },
            Assertion { column: 1, step: 7, value: 4 },
            Assertion { column: 2, step: 0, value: 5 },
            Assertion { column: 2, step: 7, value: 6 },
        ]
    );
    assert_eq!(air.context().degrees, vec![1]);
    assert_eq!(air.context().num_assertions, 6);
    assert_eq!(air.context().options, ProofOptions::standard());
    assert_eq!(air.context().trace_info.length(), 8);
    assert_eq!(air.trace_length(), 8);
    assert_eq!(air.pub_inputs(), inputs);
}

#[test]
fn unit_step_rule_moves_one_unit_per_row() {
    let trace = Trace::init(vec![vec![10, 11, 12, 13], vec![20, 21, 22, 23]]).unwrap();
    let air = GpsAir::with_variant(
        ConstraintVariant::UnitStep,
        trace.info(),
        extract(&trace),
        ProofOptions::standard(),
    )
    .unwrap();
    assert_eq!(air.check(&trace), Ok(()));
    assert_eq!(air.evaluate_transition(&vec![10, 20], &vec![11, 21]), vec![0, 0]);
    assert_eq!(air.evaluate_transition(&vec![10, 20], &vec![12, 20]), vec![1, MODULUS - 1]);
    assert_eq!(air.get_assertions().len(), 4);
    assert_eq!(air.context().degrees, vec![1, 1]);

    let stalled = Trace::init(vec![vec![10, 11, 11, 12], vec![20, 21, 22, 23]]).unwrap();
    assert_eq!(air.check(&stalled), Err(Violation::Transition(1)));
    assert_eq!(air.first_broken_transition(&stalled), Some(1));
    assert_eq!(air.first_broken_assertion(&stalled), Some(2));

    let rules = transition_rules(ConstraintVariant::UnitStep);
    assert_eq!(rules.len(), 2);
    assert_eq!(rules[1].constant, -1);
    assert_eq!(evaluate_rule(&rules[1], &vec![0, 7], &vec![0, 9]), 1);
}

#[test]
fn constraint_system_is_refused_for_a_wrong_width_or_bad_options() {
    let inputs = PublicInputs { lat: 1, lon: 2, next_lat: 3, next_lon: 4, time: 5, next_time: 6 };
    let narrow = TraceInfo::new(3, 8).unwrap();
    assert_eq!(
        GpsAir::new(narrow, inputs, ProofOptions::standard()).err(),
        Some(AirError::TraceWidthMismatch)
    );
    let bad = ProofOptions { blowup_factor: 1, num_queries: 0, ..ProofOptions::standard() };
    assert_eq!(GpsAir::new(narrow, inputs, bad).err(), Some(AirError::TraceWidthMismatch));
    let info = TraceInfo::new(4, 8).unwrap();
    assert_eq!(
        GpsAir::new(info, inputs, bad).err(),
        Some(AirError::InvalidConfiguration(ConfigError::NumQueries))
    );
    assert_eq!(
        GpsAir::with_variant(ConstraintVariant::UnitStep, info, inputs, ProofOptions::standard())
            .err(),
        Some(AirError::TraceWidthMismatch)
    );
}

#[test]
fn trace_of_another_shape_does_not_fit() {
    let inputs = PublicInputs { lat: 1, lon: 5, next_lat: 2, next_lon: 6, time: 9, next_time: 10 };
    let air = GpsAir::new(TraceInfo::new(4, 4).unwrap(), inputs, ProofOptions::standard()).unwrap();
    let short = Trace::init(vec![vec![1, 2], vec![5, 6], vec![9, 10], vec![0, 1]]).unwrap();
    assert_eq!(air.check(&short), Err(Violation::ShapeMismatch));
    let narrow = Trace::init(vec![vec![1, 2, 3, 4], vec![5, 6, 7, 8]]).unwrap();
    assert_eq!(air.check(&narrow), Err(Violation::ShapeMismatch));
}

#[test]
fn prover_prepares_only_what_the_engine_can_take() {
    let trace = Trace::init(vec![vec![1, 2], vec![5, 6], vec![9, 12], vec![0, 3]]).unwrap();
    let prover = GpsProver::new(ProofOptions::standard());
    assert_eq!(*prover.options(), ProofOptions::standard());
    let request = prover.prepare(&trace).unwrap();
    assert_eq!(request.trace.length(), MIN_ENGINE_TRACE_LENGTH);
    assert_eq!(request.pub_inputs, extract(&trace));
    assert_eq!(request.pub_inputs, extract(&request.trace));
    assert_eq!(
        request.trace.columns(),
        &vec![
            vec![1, 2, 2, 2, 2, 2, 2, 2],
            vec![5, 6, 6, 6, 6, 6, 6, 6],
            vec![9, 12, 12, 12, 12, 12, 12, 12],
            vec![0, 3, 0, 0, 0, 0, 0, 0],
        ]
    );

    let narrow = Trace::init(vec![vec![1, 2], vec![5, 6]]).unwrap();
    assert_eq!(prover.prepare(&narrow).err(), Some(ProvingError::TraceWidthMismatch));
    let bad = GpsProver::new(ProofOptions { grinding_factor: 40, ..ProofOptions::standard() });
    assert_eq!(
        bad.prepare(&trace).err(),
        Some(ProvingError::InvalidConfiguration(ConfigError::GrindingFactor))
    );
    let broken = Trace::init(vec![vec![1; 4], vec![5; 4], vec![9, 12, 13, 13], vec![0, 3, 2, 0]])
        .unwrap();
    assert_eq!(prover.prepare(&broken).err(), Some(ProvingError::ConstraintUnsatisfied(1)));
}

#[test]
fn trace_is_continued_without_moving() {
    let trace = Trace::init(vec![vec![1, 2], vec![5, 6], vec![9, 12], vec![0, 3]]).unwrap();
    assert_eq!(trace.extended(1).unwrap().columns(), trace.columns());
    assert_eq!(trace.extended(4).unwrap().columns()[3], vec![0, 3, 0, 0]);
    assert_eq!(trace.extended(4).unwrap().columns()[2], vec![9, 12, 12, 12]);
    assert!(trace.extended(6).is_none());
    assert!(trace.extended(0).is_none());
    let narrow = Trace::init(vec![vec![1, 2], vec![5, 6]]).unwrap();
    assert!(narrow.extended(4).is_none());
}

#[test]
fn rows_are_described_with_the_time_to_the_next() {
    let trace = Trace::init(vec![vec![1, 2], vec![5, 6], vec![9, 12], vec![0, 3]]).unwrap();
    assert_eq!(
        trace_steps(&trace),
        vec![
            StepRecord { step: 1, lat: 1, lon: 5, time: 9, time_to_next: Some(3) },
            StepRecord { step: 2, lat: 2, lon: 6, time: 12, time_to_next: None },
        ]
    );
}

#[test]
fn every_finding_of_the_engine_has_its_reason() {
    let malformed = [
        EngineFailure::GkrProofVerificationFailed,
        EngineFailure::InconsistentBaseField,
        EngineFailure::UnsupportedFieldExtension(3),
        EngineFailure::ProofDeserializationError,
    ];
    let unsatisfied =
        [EngineFailure::InconsistentOodConstraintEvaluations, EngineFailure::FriVerificationFailed];
    let mismatch = [
        EngineFailure::RandomCoinError,
        EngineFailure::TraceQueryDoesNotMatchCommitment,
        EngineFailure::ConstraintQueryDoesNotMatchCommitment,
        EngineFailure::QuerySeedProofOfWorkVerificationFailed,
    ];
    let insecure = [
        EngineFailure::InsufficientConjecturedSecurity { required: 95, provided: 60 },
        EngineFailure::InsufficientProvenSecurity { required: 95, provided: 60 },
        EngineFailure::UnacceptableProofOptions,
    ];
    for failure in malformed {
        assert_eq!(classify(failure), VerificationError::MalformedProof);
    }
    for failure in unsatisfied {
        assert_eq!(classify(failure), VerificationError::ConstraintUnsatisfied);
    }
    for failure in mismatch {
        assert_eq!(classify(failure), VerificationError::CommitmentMismatch);
    }
    for failure in insecure {
        assert_eq!(classify(failure), VerificationError::SecurityBelowThreshold);
    }
}

#[test]
fn verdict_follows_the_engine_for_a_statement_in_the_field() {
    assert_eq!(verify_gps_trip(1, 2, 3, 4, 5, 6, Ok(())), Ok(()));
    assert_eq!(
        verify_gps_trip(1, 2, 3, 4, 5, 6, Err(EngineFailure::TraceQueryDoesNotMatchCommitment)),
        Err(VerificationError::CommitmentMismatch)
    );
    assert_eq!(
        verify_gps_trip(1, 2, 3, MODULUS, 5, 6, Ok(())),
        Err(VerificationError::MalformedStatement)
    );
    assert_eq!(
        verify_gps_trip(1, 2, 3, 4, 5, u128::MAX, Err(EngineFailure::FriVerificationFailed)),
        Err(VerificationError::MalformedStatement)
    );
}

#[test]
fn proof_for_another_shape_is_not_admitted() {
    let options = ProofOptions::standard();
    assert!(admit_proof(4, 8, options).is_ok());
    assert_eq!(admit_proof(4, 8, options).unwrap().length(), 8);
    assert_eq!(admit_proof(3, 8, options).err(), Some(VerificationError::MalformedProof));
    assert_eq!(admit_proof(4, 12, options).err(), Some(VerificationError::MalformedProof));
    let bad = ProofOptions { fri_folding_factor: 3, ..options };
    assert_eq!(admit_proof(4, 8, bad).err(), Some(VerificationError::MalformedProof));
}

#[test]
fn missing_or_impossible_time_counts_as_zero() {
    assert_eq!(extract_timestamp(None), 0);
    assert_eq!(
        extract_timestamp(Some(UnixTime { seconds: 1_431_648_000, nanosecond: 0 })),
        1_431_648_000
    );
    assert_eq!(
        extract_timestamp(Some(UnixTime { seconds: -86_400, nanosecond: 999_999_999 })),
        -86_400
    );
    assert_eq!(extract_timestamp(Some(UnixTime { seconds: i64::MAX, nanosecond: 0 })), 0);
    assert_eq!(extract_timestamp(Some(UnixTime { seconds: 5, nanosecond: 2_000_000_000 })), 0);
    assert_eq!(timestamp_or_zero(Some(-3)), -3);
    assert_eq!(timestamp_or_zero(None), 0);
}

#[test]
fn recording_without_points_is_named() {
    assert_eq!(check_tracks(&vec![]), Err(TrackError::NoTracks));
    assert_eq!(check_tracks(&vec![vec![3], vec![]]), Err(TrackError::EmptyTrack { track: 2 }));
    assert_eq!(
        check_tracks(&vec![vec![3, 1], vec![2, 0, 0]]),
        Err(TrackError::EmptySegment { track: 2, segment: 2 })
    );
    assert_eq!(
        check_tracks(&vec![vec![0], vec![]]),
        Err(TrackError::EmptySegment { track: 1, segment: 1 })
    );
    assert_eq!(check_tracks(&vec![vec![3, 1], vec![2]]), Ok(()));
}

#[test]
fn times_are_spread_in_whole_intervals() {
    assert_eq!(distribute_timestamps(100, 10, 4), Some(vec![100, 102, 104, 106]));
    assert_eq!(distribute_timestamps(-5, 3, 5), Some(vec![-5; 5]));
    assert_eq!(
        distribute_timestamps(1_734_000_014, 21_600, 3),
        Some(vec![1_734_000_014, 1_734_007_214, 1_734_014_414])
    );
    assert_eq!(distribute_timestamps(100, 10, 0), None);
    assert_eq!(distribute_timestamps(i64::MAX, 1, 1), None);
    assert_eq!(distribute_timestamps(i64::MAX - 1, 1, 1), Some(vec![i64::MAX - 1]));
    assert_eq!(distribute_timestamps(i64::MIN, u64::MAX, 2), Some(vec![i64::MIN, -1]));
}
