use std::fmt;
use std::ops::DerefMut;

use dusk_cdf::plonk::{
    CircuitDescription, Context, Config, Constraint, Element, Error, FixedText, IndexedWitness, Polynomial, Preamble,
    Scalar, Source, Witness,
};

fn encode_decode_element<E, I>(mut elements: I)
where
    E: Element + fmt::Debug + PartialEq,
    I: Iterator<Item = E>,
{
    let preambles = vec![
        *Preamble::new().with_witnesses(1).with_constraints(0),
        *Preamble::new().with_witnesses(1).with_constraints(1),
        *Preamble::new().with_witnesses(1).with_constraints(10),
        *Preamble::new().with_witnesses(10).with_constraints(0),
        *Preamble::new().with_witnesses(10).with_constraints(1),
        *Preamble::new().with_witnesses(10).with_constraints(10),
        *Preamble::new().with_witnesses(10).with_constraints(100),
    ];

    for preamble in preambles {
        elements.by_ref().for_each(move |el| {
            let bytes = el.to_vec(&preamble);
            let el_p = E::try_from_buffer(&preamble, &bytes).expect("failed to decode");

            assert_eq!(el_p, el);

            let mut op = Some(el);
            let bytes = op.to_vec(&preamble);
            let op_p = <Option<E>>::try_from_buffer(&preamble, &bytes).expect("failed to decode");

            assert_eq!(op_p, op);
            assert_ne!(op_p, None);

            let el = op.take();

            let bytes = op.to_vec(&preamble);
            let op_p = <Option<E>>::try_from_buffer(&preamble, &bytes).expect("failed to decode");

            assert_eq!(op_p, None);
            assert_ne!(op_p, el);
        });
    }
}

#[test]
fn constraint_validate_works() {
    Constraint::zeroed()
        .validate(&Default::default())
        .expect("default config validate should pass");
}

#[test]
fn validate_option_works() {
    Some(34873u64)
        .validate(&Default::default())
        .expect("default config validate should pass");

    let opt: Option<u64> = None;

    opt.validate(&Default::default())
        .expect("default config validate should pass");
}

#[test]
fn validate_unit_works() {
    ().validate(&Default::default())
        .expect("default config validate should pass");
}

#[test]
fn bytes_encode_works() {
    let mut bytes = [0xfa; Scalar::LEN];
    let mut scalar = Scalar::from(bytes);

    assert_eq!(&bytes, scalar.as_ref());
    assert_eq!(bytes, *scalar);
    assert_eq!(&mut bytes, scalar.deref_mut());
}

#[test]
fn encode_zeroed_len_is_consitent() {
    let config = *Config::new().with_zeroed_scalar_values(false);
    let len = <Scalar as Element>::len(&config);

    assert_eq!(Scalar::LEN, len);

    let config = *Config::new().with_zeroed_scalar_values(true);
    let len = <Scalar as Element>::len(&config);

    assert_eq!(0, len);
}

#[test]
fn preamble_validate_works() {
    Preamble::zeroed()
        .validate(&Default::default())
        .expect("default config validate should pass");

    Preamble::new()
        .with_witnesses(0)
        .validate(&Default::default())
        .expect_err("zeroed witness count isn't a valid circuit");
}

#[test]
fn encoding_encode_language_primitives() {
    encode_decode_element(std::iter::once(true).chain(std::iter::once(false)));
    encode_decode_element(
        std::iter::once(u16::MIN)
            .chain(std::iter::once(u16::MAX))
            .chain(std::iter::once(u16::MAX >> 1)),
    );
    encode_decode_element(
        std::iter::once(u64::MIN)
            .chain(std::iter::once(u64::MAX))
            .chain(std::iter::once(u64::MAX >> 1)),
    );
    encode_decode_element(
        std::iter::once(usize::MIN)
            .chain(std::iter::once(usize::MAX))
            .chain(std::iter::once(usize::MAX >> 1)),
    );
    encode_decode_element(std::iter::once(()));
}

#[test]
fn encoding_encode_scalar_primitive() {
    encode_decode_element(std::iter::once(Scalar::from([0u8; Scalar::LEN])));
    encode_decode_element(std::iter::once(Scalar::from([0xfa; Scalar::LEN])));
}

#[test]
fn encoding_encode_preamble() {
    encode_decode_element(std::iter::once(*Preamble::new().with_witnesses(1).with_constraints(0)));
    encode_decode_element(std::iter::once(
        *Preamble::new().with_witnesses(usize::MAX).with_constraints(0),
    ));
    encode_decode_element(std::iter::once(
        *Preamble::new().with_witnesses(1).with_constraints(usize::MAX),
    ));
    encode_decode_element(std::iter::once(
        *Preamble::new().with_witnesses(usize::MAX).with_constraints(usize::MAX),
    ));
}

#[test]
fn encoding_encode_indexed_witness() {
    encode_decode_element(std::iter::once(IndexedWitness::new(0, None, [0xfa; Scalar::LEN].into())));
    encode_decode_element(std::iter::once(IndexedWitness::new(0, Some(0), [0xfa; Scalar::LEN].into())));
    encode_decode_element(std::iter::once(IndexedWitness::new(
        0,
        Some(usize::MAX),
        [0xfa; Scalar::LEN].into(),
    )));
    encode_decode_element(std::iter::once(IndexedWitness::new(usize::MAX, None, [0xfa; Scalar::LEN].into())));
    encode_decode_element(std::iter::once(IndexedWitness::new(
        usize::MAX,
        Some(0),
        [0xfa; Scalar::LEN].into(),
    )));
    encode_decode_element(std::iter::once(IndexedWitness::new(
        usize::MAX,
        Some(usize::MAX),
        [0xfa; Scalar::LEN].into(),
    )));
}

#[test]
fn encoding_encode_fixed_text_primitive_and_source() {
    let text = String::from(
        "Anyone who can appease a man's conscience can take his freedom away from him.",
    );

    encode_decode_element(std::iter::once(FixedText::<2>::from(text.clone())));
    encode_decode_element(std::iter::once(FixedText::<3>::from(text.clone())));
    encode_decode_element(std::iter::once(FixedText::<4>::from(text.clone())));
    encode_decode_element(std::iter::once(FixedText::<5>::from(text.clone())));
    encode_decode_element(std::iter::once(FixedText::<6>::from(text.clone())));
    encode_decode_element(std::iter::once(FixedText::<7>::from(text.clone())));
    encode_decode_element(std::iter::once(FixedText::<8>::from(text.clone())));
    encode_decode_element(std::iter::once(FixedText::<9>::from(text.clone())));

    encode_decode_element(std::iter::once(Source::new(0, 0, text.clone().into())));
    encode_decode_element(std::iter::once(Source::new(u64::MAX, 0, text.clone().into())));
    encode_decode_element(std::iter::once(Source::new(0, u64::MAX, text.clone().into())));
    encode_decode_element(std::iter::once(Source::new(u64::MAX, u64::MAX, text.clone().into())));
}

fn scalar(b: u8) -> Scalar {
    Scalar::from([b; Scalar::LEN])
}

fn source(line: u64, path: &str) -> Source {
    Source::new(line, 3, String::from(path).into())
}

fn witness(id: usize) -> Witness {
    Witness::new(id, scalar(id as u8), source(id as u64 + 1, "main.rs"))
}

fn constraint(id: u64, witnesses: usize, constraints: usize) -> Constraint {
    let w = IndexedWitness::new(witnesses - 1, Some(constraints - 1), scalar(7));
    let polynomial = Polynomial::new(
        scalar(1),
        scalar(2),
        scalar(3),
        scalar(4),
        scalar(5),
        scalar(6),
        scalar(7),
        w,
        w,
        w,
        w,
        id % 2 == 0,
    );
    Constraint::new(id, polynomial, source(id + 10, "lib.rs"))
}

#[test]
fn fixed_text_keeps_the_longest_prefix_that_fits() {
    let text = FixedText::<6>::from(String::from("abcdef"));
    assert_eq!(&*text, "abcd");

    // 'é' takes two bytes: it doesn't fit in the last byte of room
    let text = FixedText::<6>::from(String::from("abcé"));
    assert_eq!(&*text, "abc");

    let text = FixedText::<1>::from(String::from("abc"));
    assert_eq!(&*text, "");

    let back: String = FixedText::<5>::from(String::from("xyzw")).into();
    assert_eq!(back, "xyz");
}

#[test]
fn fixed_text_encoding_is_length_prefixed() {
    let text = FixedText::<6>::from(String::from("ab"));
    let bytes = text.to_vec(&Config::default());
    assert_eq!(bytes, vec![2, 0, b'a', b'b', 0, 0]);
}

#[test]
fn fixed_text_refuses_invalid_text() {
    let invalid_utf8 = vec![0, 159, 146, 150];
    let mut buffer = (invalid_utf8.len() as u16).to_le_bytes().to_vec();
    buffer.extend(&invalid_utf8);

    assert_eq!(
        FixedText::<6>::try_from_buffer(&Config::default(), &buffer),
        Err(Error::InvalidText)
    );

    let too_long = vec![5, 0, b'a', b'b', b'c', b'd', b'e', b'f'];
    assert_eq!(
        FixedText::<6>::try_from_buffer(&Config::default(), &too_long),
        Err(Error::InvalidText)
    );
}

#[test]
fn zeroed_scalar_elements_decode_as_zero() {
    let config = *Config::new().with_zeroed_scalar_values(true);
    let w = witness(3);
    let bytes = w.to_vec(&config);
    assert_eq!(bytes.len(), 1048);

    let decoded = Witness::try_from_buffer(&config, &bytes).expect("failed to decode");
    assert_eq!(decoded.id(), 3);
    assert_eq!(*decoded.value(), scalar(0));
    assert_eq!(decoded.source(), w.source());
}

#[test]
fn try_from_buffer_in_place_works_with_some() {
    let val = 39802u64;
    let bytes = Some(val).to_vec(&Config::default());

    let mut some = Some(1u64);
    some.try_from_buffer_in_place(&Config::default(), &bytes)
        .expect("failed to restore option");

    assert_eq!(some, Some(val));
}

#[test]
fn element_lengths() {
    let config = Config::default();
    assert_eq!(<IndexedWitness as Element>::len(&config), 49);
    assert_eq!(<Polynomial as Element>::len(&config), 421);
    assert_eq!(<Source as Element>::len(&config), 1040);
    assert_eq!(<Witness as Element>::len(&config), 1080);
    assert_eq!(<Constraint as Element>::len(&config), 1501);
    assert_eq!(<Preamble as Element>::len(&config), Preamble::LEN);
}

#[test]
fn preamble_offsets() {
    let preamble = *Preamble::new().with_witnesses(2).with_constraints(3);
    assert_eq!(preamble.witness_offset(0), Some(17));
    assert_eq!(preamble.witness_offset(1), Some(17 + 1080));
    assert_eq!(preamble.witness_offset(2), None);
    assert_eq!(preamble.constraint_offset(0), Some(17 + 2 * 1080));
    assert_eq!(preamble.constraint_offset(2), Some(17 + 2 * 1080 + 2 * 1501));
    assert_eq!(preamble.constraint_offset(3), None);
    assert_eq!(preamble.source_cache_offset(1), 17 + 2 * 1080 + 3 * 1501 + 1024);
    assert_eq!(preamble.total_len(), 17 + 2 * 1080 + 3 * 1501);
}

#[test]
fn indexed_witness_validate_works() {
    let preamble = *Preamble::default().with_witnesses(100).with_constraints(1000);

    IndexedWitness::new(99, Some(999), scalar(1))
        .validate(&preamble)
        .expect("consistent indexed witness should validate");

    assert_eq!(
        IndexedWitness::new(100, None, scalar(1)).validate(&preamble),
        Err(Error::InvalidWitnessIndex)
    );

    assert_eq!(
        IndexedWitness::new(99, Some(1000), scalar(1)).validate(&preamble),
        Err(Error::InvalidConstraintIndex)
    );
}

#[test]
fn circuit_shuffled_circuit_is_sound_after_validation() {
    let witnesses: Vec<Witness> = (0..5).map(witness).collect();
    let constraints: Vec<Constraint> = (0..4).map(|i| constraint(i, 5, 4)).collect();

    let shuffled_w = vec![
        witnesses[3].clone(),
        witnesses[0].clone(),
        witnesses[4].clone(),
        witnesses[1].clone(),
        witnesses[2].clone(),
    ];
    let shuffled_c = vec![
        constraints[2].clone(),
        constraints[3].clone(),
        constraints[0].clone(),
        constraints[1].clone(),
    ];

    let (p, w, c) = CircuitDescription::into_valid_cdf(Preamble::new(), shuffled_w, shuffled_c)
        .expect("failed to validate circuit");

    w.iter().enumerate().for_each(|(i, w)| assert_eq!(i, w.id()));
    c.iter().enumerate().for_each(|(i, c)| assert_eq!(i as u64, c.id()));

    assert_eq!(*Preamble::new().with_witnesses(5).with_constraints(4), p);
    assert_eq!(witnesses, w);
    assert_eq!(constraints, c);
}

#[test]
fn witnesses_must_start_at_zero_and_be_dense() {
    let err = CircuitDescription::into_valid_cdf(Preamble::new(), vec![witness(1)], vec![]);
    assert_eq!(err.err(), Some(Error::WitnessesNotFromZero));

    let err = CircuitDescription::into_valid_cdf(Preamble::new(), vec![witness(0), witness(2)], vec![]);
    assert_eq!(err.err(), Some(Error::WitnessesNotDense));

    let err = CircuitDescription::into_valid_cdf(Preamble::new(), vec![witness(0), witness(0)], vec![]);
    assert_eq!(err.err(), Some(Error::WitnessesNotDense));

    let err = CircuitDescription::into_valid_cdf(
        Preamble::new(),
        vec![witness(0)],
        vec![constraint(1, 1, 1)],
    );
    assert_eq!(err.err(), Some(Error::ConstraintsNotFromZero));

    let err = CircuitDescription::into_valid_cdf(
        Preamble::new(),
        vec![witness(0)],
        vec![constraint(0, 2, 1)],
    );
    assert_eq!(err.err(), Some(Error::InvalidWitnessIndex));

    let err = CircuitDescription::into_valid_cdf(
        Preamble::new(),
        vec![witness(0)],
        vec![constraint(0, 1, 3)],
    );
    assert_eq!(err.err(), Some(Error::InvalidConstraintIndex));

    let err = CircuitDescription::into_valid_cdf(
        Preamble::new(),
        vec![witness(0)],
        vec![constraint(0, 1, 1), constraint(2, 1, 1)],
    );
    assert_eq!(err.err(), Some(Error::ConstraintsNotDense));
}

#[test]
fn written_circuit_reads_back() {
    let witnesses: Vec<Witness> = (0..3).map(witness).collect();
    let constraints: Vec<Constraint> = (0..2).map(|i| constraint(i, 3, 2)).collect();

    let mut bytes = Vec::new();
    let n = CircuitDescription::write_all(
        &mut bytes,
        Preamble::new(),
        vec![witnesses[2].clone(), witnesses[0].clone(), witnesses[1].clone()],
        constraints.clone(),
    )
        .expect("valid circuit");
    assert_eq!(n, 17 + 3 * 1080 + 2 * 1501);
    assert_eq!(bytes.len(), n);

    let cdf = CircuitDescription::from_reader(bytes).expect("failed to read");
    assert_eq!(*cdf.preamble(), *Preamble::new().with_witnesses(3).with_constraints(2));

    for w in &witnesses {
        assert_eq!(&cdf.fetch_witness(w.id()).expect("witness"), w);
    }
    for c in &constraints {
        assert_eq!(&cdf.fetch_constraint(c.id() as usize).expect("constraint"), c);
    }
    assert_eq!(cdf.fetch_witness(3).err(), Some(Error::InvalidWitness));
    assert_eq!(cdf.fetch_constraint(2).err(), Some(Error::InvalidConstraint));
}

#[test]
fn encoder_writes_each_item_at_its_id() {
    let witnesses: Vec<Witness> = (0..3).map(witness).collect();
    let constraints: Vec<Constraint> = (0..2).map(|i| constraint(i, 3, 2)).collect();

    let mut encoder = dusk_cdf::plonk::Encoder::init_cursor(
        Config::default(),
        vec![witnesses[1].clone(), witnesses[2].clone(), witnesses[0].clone()],
        vec![constraints[1].clone(), constraints[0].clone()],
    );
    let n = encoder.write_all().expect("encoder failed");
    assert_eq!(n, 17 + 3 * 1080 + 2 * 1501);

    let cdf = CircuitDescription::from_reader(encoder.into_inner()).expect("failed to read");
    for w in &witnesses {
        assert_eq!(&cdf.fetch_witness(w.id()).expect("witness"), w);
    }
    for c in &constraints {
        assert_eq!(&cdf.fetch_constraint(c.id() as usize).expect("constraint"), c);
    }

    let mut encoder = dusk_cdf::plonk::Encoder::init_cursor(Config::default(), vec![witness(1)], vec![]);
    assert_eq!(encoder.write_all(), Err(Error::OffsetUnavailable));
}

#[test]
fn context_reads_the_source_cache() {
    let mut ctx = Context::unit();
    assert!(ctx.source().is_none());
    ctx.with_source_cache_id(3);
    assert_eq!(ctx.take_source_cache_id(), Some(3));
    assert_eq!(ctx.take_source_cache_id(), None);

    let witnesses = vec![witness(0)];
    let mut bytes = Vec::new();
    let preamble = *Preamble::new().with_witnesses(1).with_constraints(0);
    CircuitDescription::write_all_unchecked(&mut bytes, preamble, &witnesses, &Vec::new());
    bytes.extend(FixedText::<1024>::from(String::from("src/main.rs")).to_vec(&Config::default()));

    let cdf = CircuitDescription::from_reader(bytes).expect("failed to read");
    assert_eq!(cdf.fetch_source(0).map(|t| String::from(t)), Ok(String::from("src/main.rs")));

    let mut ctx = Context::with_cdf(cdf);
    assert_eq!(
        ctx.fetch_source_path(0).map(|t| String::from(t)),
        Ok(String::from("src/main.rs"))
    );
    assert_eq!(ctx.source().map(|s| s.len()), Some(17 + 1080 + 1024));
}

#[test]
fn constraint_room_is_padded() {
    let c = constraint(1, 3, 2);
    let bytes = c.to_vec(&Config::default());
    assert_eq!(bytes.len(), 1501);
    assert!(bytes[1501 - 32..].iter().all(|b| *b == 0));
    assert_eq!(&bytes[0..8], &1u64.to_le_bytes());
    assert_eq!(Constraint::try_from_buffer(&Config::default(), &bytes), Ok(c));
}

fn sound_circuit(preamble: &Preamble) -> (Vec<Witness>, Vec<Constraint>) {
    let witnesses = (0..preamble.witnesses).map(witness).collect();
    let constraints = (0..preamble.constraints as u64)
        .map(|i| constraint(i, preamble.witnesses, preamble.constraints))
        .collect();
    (witnesses, constraints)
}

#[test]
fn circuit_single_witness_circuit_is_valid() {
    let witness = Witness::new(0, scalar(0x3a), source(1, "single.rs"));

    let (p, _, _) = CircuitDescription::into_valid_cdf(Default::default(), vec![witness], vec![])
        .expect("failed to validate circuit");

    assert_eq!(p.witnesses, 1);
    assert_eq!(p.constraints, 0);
}

#[test]
fn circuit_witness_must_start_at_zero() {
    let witness = Witness::new(1, scalar(0x3a), source(1, "single.rs"));

    let result = CircuitDescription::into_valid_cdf(Default::default(), vec![witness], vec![]);

    assert!(result.is_err());
}

#[test]
fn circuit_constraint_must_start_at_zero() {
    let preamble = *Preamble::new().with_witnesses(1).with_constraints(1);
    let (witnesses, constraints) = sound_circuit(&preamble);

    let witness = witnesses[0].clone();
    let polynomial = *constraints[0].polynomial();

    let constraint = Constraint::new(0, polynomial, source(7, "gadget.rs"));

    // Sanity check
    let (p, _, _) = CircuitDescription::into_valid_cdf(
        Default::default(),
        vec![witness.clone()],
        vec![constraint.clone()],
    )
    .expect("failed to validate circuit");

    assert_eq!(preamble, p);

    let constraint = Constraint::new(1, polynomial, source(8, "gadget.rs"));

    let result = CircuitDescription::into_valid_cdf(Default::default(), vec![witness], vec![constraint]);

    assert!(result.is_err());
}

#[test]
fn circuit_circuit_data_seek_works_for_witness_and_constraints() {
    let preambles = vec![
        *Preamble::new().with_witnesses(1).with_constraints(0),
        *Preamble::new().with_witnesses(1).with_constraints(10),
        *Preamble::new().with_witnesses(10).with_constraints(0),
        *Preamble::new().with_witnesses(10).with_constraints(100),
    ];

    for preamble in preambles {
        let (witnesses, constraints) = sound_circuit(&preamble);

        let mut bytes = Vec::new();

        CircuitDescription::write_all(&mut bytes, Default::default(), witnesses.clone(), constraints.clone())
            .expect("failed to serialize circuit");

        let circuit = CircuitDescription::from_reader(bytes).expect("failed to open circuit");

        assert_eq!(&preamble, circuit.preamble());

        witnesses.iter().enumerate().rev().for_each(|(idx, witness)| {
            let w = circuit.fetch_witness(idx).expect("failed to fetch witness");

            assert_eq!(witness, &w);
        });

        constraints.iter().enumerate().rev().for_each(|(idx, constraint)| {
            let c = circuit.fetch_constraint(idx).expect("failed to fetch constraint");

            assert_eq!(constraint, &c);
        });

        // check if won't panic on invalid idx
        let result = circuit.fetch_witness(witnesses.len());

        assert!(result.is_err());

        // check if won't panic on invalid idx
        let result = circuit.fetch_constraint(constraints.len());

        assert!(result.is_err());
    }
}

#[test]
fn invalid_utf8_wont_panic() {
    let config = Config::default();

    let invalid_utf8 = vec![0, 159, 146, 150];
    let mut buffer = (invalid_utf8.len() as u16).to_le_bytes().to_vec();

    buffer.extend(&invalid_utf8);

    String::from_utf8(invalid_utf8).expect_err("invalid char shouldn't generate string");

    FixedText::<1>::try_from_buffer(&config, &buffer).expect_err("invalid char shouldn't generate fixed text");
    assert_eq!(FixedText::<1>::try_from_buffer(&config, &[0]).map(String::from), Ok(String::new()));
}

#[test]
fn encode_polynomial() {
    let polynomials = (0..100u64).map(|i| {
        let w = IndexedWitness::new(i as usize, Some(i as usize / 2), scalar(i as u8));
        Polynomial::new(
            scalar(i as u8),
            scalar(1),
            scalar(2),
            scalar(3),
            scalar(4),
            scalar(5),
            scalar(6),
            w,
            IndexedWitness::new(0, None, scalar(0xff)),
            w,
            w,
            i % 3 == 0,
        )
    });

    encode_decode_element(polynomials);
}

#[test]
fn zeroed_plonk_scalar_decodes_in_place_as_zero() {
    let config = *Config::new().with_zeroed_scalar_values(true);
    let mut s = Scalar::from([0xfa; Scalar::LEN]);

    s.try_from_buffer_in_place(&config, &[]).expect("decode");
    assert_eq!(s, Scalar::default());
}

#[test]
fn witness_validate_works() {
    let witnesses = 100;
    let constraints = 1000;

    let preamble = *Preamble::default().with_witnesses(witnesses).with_constraints(constraints);
    let (ws, _) = sound_circuit(&preamble);
    let witness = ws[witnesses / 2].clone();

    witness.source().validate(&Default::default()).expect("failed to validate witness source");

    witness.validate(&Default::default()).expect("failed to validate witness");
}
