use std::collections::HashMap;
use std::fmt;
use std::path::PathBuf;

use dusk_cdf::{
    Element, EncodedSource, write_source_cache, DecodableElement, EncodableElement, Witness, Report, Breakpoint, CircuitDescription, Config, DecoderContext, EncodableConstraint, EncodableSource, EncodableWitness,
    Encoder, EncoderContext, EncoderContextProvider, Error, Polynomial, Preamble, Scalar, Selectors, State,
    WiredWitnesses, ZkDebugger, ZkWitness, scalar_to_string,
};

struct MemoryProvider;

impl EncoderContextProvider for MemoryProvider {
    fn canonicalize(&mut self, path: &str) -> Result<String, Error> {
        Ok(format!("/src/{}", path))
    }

    fn contents(&mut self, path: &str) -> Result<String, Error> {
        Ok(format!("contents of {}", path))
    }
}

struct FailingProvider;

impl EncoderContextProvider for FailingProvider {
    fn canonicalize(&mut self, _path: &str) -> Result<String, Error> {
        Err(Error::SourceUnavailable)
    }

    fn contents(&mut self, _path: &str) -> Result<String, Error> {
        Err(Error::SourceUnavailable)
    }
}

fn scalar(b: u8) -> Scalar {
    Scalar::from([b; Scalar::LEN])
}

fn polynomial(evaluation: bool) -> Polynomial {
    let selectors = Selectors {
        qm: scalar(1),
        ql: scalar(2),
        qr: scalar(3),
        qd: scalar(4),
        qc: scalar(5),
        qo: scalar(6),
        pi: scalar(7),
        qarith: scalar(8),
        qlogic: scalar(9),
        qrange: scalar(10),
        qgroup_variable: scalar(11),
        qfixed_add: scalar(12),
    };
    let witnesses = WiredWitnesses { a: 0, b: 1, d: 2, o: 3 };
    Polynomial::new(selectors, witnesses, evaluation)
}

/// Constraints at (path, line): 0 main:1, 1 main:1, 2 main:2, 3 lib:5 (invalid), 4 main:3,
/// 5 main:3, 6 lib:9.
fn circuit(all_valid: bool) -> (Vec<EncodableWitness>, Vec<EncodableConstraint>) {
    let witnesses = (0..4)
        .map(|i| EncodableWitness::new(i, Some(0), scalar(i as u8), EncodableSource::new(i as u64, 2, String::from("main.rs"))))
        .collect();
    let places: Vec<(&str, u64, bool)> = vec![
        ("main.rs", 1, true),
        ("main.rs", 1, true),
        ("main.rs", 2, true),
        ("lib.rs", 5, all_valid),
        ("main.rs", 3, true),
        ("main.rs", 3, true),
        ("lib.rs", 9, true),
    ];
    let constraints = places
        .into_iter()
        .enumerate()
        .map(|(i, (path, line, ok))| EncodableConstraint::new(i, polynomial(ok), EncodableSource::new(line, 4, String::from(path))))
        .collect();
    (witnesses, constraints)
}

fn encoded(config: Config) -> Vec<u8> {
    encoded_circuit(config, false)
}

fn encoded_circuit(config: Config, all_valid: bool) -> Vec<u8> {
    let (witnesses, constraints) = circuit(all_valid);
    let mut encoder = Encoder::init_cursor(config, witnesses, constraints);
    let n = encoder.write_all(&mut MemoryProvider).expect("encoding failed");
    let bytes = encoder.into_inner();
    assert_eq!(n, bytes.len());
    bytes
}

#[test]
fn base_is_valid() {
    assert_eq!(DecoderContext::new(&Config::default(), &[], &[]), DecoderContext::base());
}

#[test]
fn preamble_is_correctly_created() {
    let preamble = Preamble::default();
    let context = EncoderContext::from_preamble(preamble);

    assert_eq!(&preamble, context.preamble());
}

#[test]
fn path_cache_is_not_duplicated() {
    let main = PathBuf::from("home").join("zkp-debugger").join("main.rs").to_string_lossy().into_owned();
    let lib = PathBuf::from("home").join("zkp-debugger").join("lib.rs").to_string_lossy().into_owned();

    let mut context = EncoderContext::from_preamble(Default::default());

    let idx_main = context.add_path(main.clone());

    // duplicated path is not added; same index should be returned
    assert_eq!(idx_main, context.add_path(main.clone()));

    let idx_lib = context.add_path(lib.clone());

    // lib is a different path so it should have a different index
    assert_ne!(idx_main, idx_lib);
}

#[test]
fn context_derives_expected_map() {
    let main = PathBuf::from("home").join("zkp-debugger").join("main.rs").to_string_lossy().into_owned();
    let lib = PathBuf::from("home").join("zkp-debugger").join("lib.rs").to_string_lossy().into_owned();

    let mut context = EncoderContext::from_preamble(Default::default());

    let idx_main = context.add_path(main.clone());
    let idx_lib = context.add_path(lib.clone());

    assert_eq!(context.paths()[idx_main], main);
    assert_eq!(context.paths()[idx_lib], lib);
    assert_eq!(context.paths().len(), 2);
}

#[test]
fn decoder_works() {
    let cdf = CircuitDescription::from_reader(encoded(Config::default())).expect("failed to read");

    assert_eq!(cdf.preamble().witnesses, 4);
    assert_eq!(cdf.preamble().constraints, 7);

    for idx in 0..cdf.preamble().witnesses {
        let w = cdf.fetch_witness(idx).expect("failed to read witness");
        assert_eq!(w.id(), idx);
        assert_eq!(w.constraint(), Some(0));
        assert_eq!(*w.value(), scalar(idx as u8));
        assert_eq!(w.line(), idx as u64);
        assert_eq!(w.col(), 2);
        assert_eq!(w.name(), "/src/main.rs");
        assert_eq!(w.contents(), "contents of /src/main.rs");
    }

    for idx in 0..cdf.preamble().constraints {
        let c = cdf.fetch_constraint(idx).expect("failed to read constraint");
        assert_eq!(c.id(), idx);
        assert_eq!(*c.polynomial(), polynomial(idx != 3));
    }
    assert_eq!(cdf.fetch_constraint(3).expect("constraint").name(), "/src/lib.rs");

    assert_eq!(cdf.fetch_witness(cdf.preamble().witnesses).err(), Some(Error::InvalidWitness));
    assert_eq!(cdf.fetch_constraint(cdf.preamble().constraints).err(), Some(Error::InvalidConstraint));

    assert!(cdf.source_name_contains("main.rs"));
    assert!(!cdf.source_name_contains("other.rs"));
    assert_eq!(cdf.source_names().len(), 2);
    assert_eq!(cdf.source_contents().len(), 2);
}

#[test]
fn zeroed_scalars_decode_as_zero() {
    let cdf = CircuitDescription::from_reader(encoded(*Config::new().with_zeroed_scalar_values(true))).expect("failed to read");
    let w = cdf.fetch_witness(2).expect("witness");
    assert_eq!(*w.value(), scalar(0));
    assert_eq!(w.id(), 2);
}

#[test]
fn broken_files_are_refused() {
    assert_eq!(CircuitDescription::from_reader(Vec::new()).err(), Some(Error::MalformedSourceCache));

    let mut bytes = encoded(Config::default());
    let len = bytes.len();
    bytes.truncate(len - 3);
    assert_eq!(CircuitDescription::from_reader(bytes).err(), Some(Error::MalformedSourceCache));

    let mut huge = vec![0xffu8; 16];
    huge.push(0);
    assert_eq!(CircuitDescription::from_reader(huge).err(), Some(Error::OffsetOverflow));
}

#[test]
fn failing_provider_fails_the_encoding() {
    let (witnesses, constraints) = circuit(false);
    let mut encoder = Encoder::init_cursor(Config::default(), witnesses, constraints);
    assert_eq!(encoder.write_all(&mut FailingProvider), Err(Error::SourceUnavailable));
}

#[test]
fn breakpoint_matches() {
    let breakpoint = Breakpoint { source: String::from("xyz"), line: Some(40) };

    assert!(breakpoint.matches("xyz", 40));
    assert!(breakpoint.matches("/home/xyz.rs", 40));
    assert!(!breakpoint.matches("xyz", 41));
    assert!(!breakpoint.matches("xy", 40));

    let any_line = Breakpoint { source: String::from("xyz"), line: None };
    assert!(any_line.matches("axyzb", 7));
}

fn debugger() -> ZkDebugger {
    ZkDebugger::from_reader(encoded(Config::default())).expect("failed to read")
}

#[test]
fn add_then_fetch_breakpoint() {
    let mut debugger = debugger();
    let breakpoint = Breakpoint { source: String::from("xyz"), line: Some(40) };

    assert_eq!(debugger.add_breakpoint(String::from("xyz"), Some(40)), 1);
    assert_eq!(debugger.fetch_breakpoint(1), Some(&breakpoint));

    // the same breakpoint keeps its id
    assert_eq!(debugger.add_breakpoint(String::from("xyz"), Some(40)), 1);
    assert_eq!(debugger.add_breakpoint(String::from("abc"), None), 2);

    assert_eq!(debugger.remove_breakpoint(1), Some(breakpoint));
    assert_eq!(debugger.fetch_breakpoint(1), None);
    assert_eq!(debugger.remove_breakpoint(1), None);

    debugger.clear_breakpoints("abc.rs");
    assert_eq!(debugger.fetch_breakpoint(2), None);
    assert_eq!(debugger.breakpoints().len(), 0);
}

#[test]
fn base_operations_wont_panic() {
    let mut debugger = ZkDebugger::from_reader(encoded_circuit(Config::default(), true)).expect("failed to read");

    let b = debugger.add_breakpoint("rs".into(), Some(1));
    debugger.fetch_breakpoint(b).expect("breakpoint was added");
    debugger.remove_breakpoint(b).expect("breakpoint was added");
    debugger.clear_breakpoints("rs");

    debugger.fetch_current_constraint().expect("constraint");
    debugger.fetch_constraint(0).expect("constraint");
    debugger.fetch_witness(0).expect("witness");

    let state = debugger.cont().expect("cont");
    assert!(matches!(state, State::End { .. }));

    debugger.afore().expect("afore");
    debugger.goto(0).expect("goto");
    debugger.step().expect("step");
    debugger.turn().expect("turn");
}

#[test]
fn stepping_moves_by_source_line() {
    let mut debugger = debugger();

    assert_eq!(debugger.afore(), Ok(State::Beginning));
    assert_eq!(debugger.step(), Ok(State::Constraint { id: 2 }));
    assert_eq!(debugger.step(), Ok(State::InvalidConstraint { id: 3 }));
    assert_eq!(debugger.step(), Ok(State::Constraint { id: 4 }));
    assert_eq!(debugger.step(), Ok(State::End { id: 6 }));
    assert_eq!(debugger.step(), Ok(State::End { id: 6 }));
    assert_eq!(debugger.afore(), Ok(State::Constraint { id: 5 }));
    assert_eq!(debugger.position(), 5);
    assert_eq!(debugger.afore(), Ok(State::InvalidConstraint { id: 3 }));
    assert_eq!(debugger.afore(), Ok(State::Constraint { id: 2 }));
    assert_eq!(debugger.afore(), Ok(State::Constraint { id: 1 }));
    assert_eq!(debugger.afore(), Ok(State::Beginning));
    assert_eq!(debugger.position(), 0);
}

#[test]
fn continue_stops_at_breakpoints_and_invalid_constraints() {
    let mut debugger = debugger();

    assert_eq!(debugger.cont(), Ok(State::InvalidConstraint { id: 3 }));
    assert_eq!(debugger.cont(), Ok(State::End { id: 6 }));
    assert_eq!(debugger.turn(), Ok(State::InvalidConstraint { id: 3 }));
    assert_eq!(debugger.turn(), Ok(State::Beginning));

    let id = debugger.add_breakpoint(String::from("main.rs"), Some(3));
    assert_eq!(debugger.goto(4), Ok(State::Constraint { id: 4 }));
    assert_eq!(debugger.cont(), Ok(State::End { id: 6 }));
    assert_eq!(debugger.turn(), Ok(State::Breakpoint { id }));
    assert_eq!(debugger.position(), 5);
}

#[test]
fn goto_reports_the_constraint() {
    let mut debugger = debugger();

    assert_eq!(debugger.goto(3), Ok(State::InvalidConstraint { id: 3 }));
    assert_eq!(debugger.goto(6), Ok(State::End { id: 6 }));
    assert_eq!(debugger.goto(2), Ok(State::Constraint { id: 2 }));
    assert_eq!(debugger.fetch_current_constraint().expect("constraint").id(), 2);
    assert_eq!(debugger.goto(7), Err(Error::InvalidConstraint));
    assert_eq!(debugger.position(), 2);
    assert_eq!(debugger.goto(0), Ok(State::Beginning));
}

#[test]
fn scalar_text_is_lowercase_hex() {
    let mut bytes = [0u8; Scalar::LEN];
    bytes[0] = 0xab;
    bytes[31] = 0x0f;
    let text = scalar_to_string(&Scalar::from(bytes));
    let mut expected = String::from("0xab");
    expected.push_str(&"00".repeat(30));
    expected.push_str("0f");
    assert_eq!(text, expected);
}

#[test]
fn witness_protocol_representation() {
    let cdf = CircuitDescription::from_reader(encoded(Config::default())).expect("failed to read");
    let w = cdf.fetch_witness(1).expect("witness");
    let z = ZkWitness::from(w);

    assert_eq!(z.id, 1);
    assert_eq!(z.constraint, Some(0));
    assert_eq!(z.value, format!("0x{}", "01".repeat(32)));
    assert_eq!(z.source, "/src/main.rs");
    assert_eq!(z.line, 1);
}

#[test]
fn sources_pair_names_and_contents() {
    let cdf = CircuitDescription::from_reader(encoded(Config::default())).expect("failed to read");
    let sources = cdf.sources();
    assert_eq!(sources.len(), 2);
    assert_eq!(sources[0], ("/src/main.rs", "contents of /src/main.rs"));
    assert_eq!(sources[1], ("/src/lib.rs", "contents of /src/lib.rs"));
}

#[test]
fn states_are_reported() {
    assert_eq!(State::Beginning.report(), Report::Step);
    assert_eq!(State::Constraint { id: 3 }.report(), Report::Step);
    assert_eq!(State::InvalidConstraint { id: 3 }.report(), Report::Terminate { exit_code: 1 });
    assert_eq!(State::Breakpoint { id: 2 }.report(), Report::Breakpoint { id: 2 });
    assert_eq!(State::End { id: 9 }.report(), Report::Terminate { exit_code: 0 });
}

#[test]
fn preamble_offsets_follow_the_items() {
    let preamble = Preamble::new(2, 3, Config::default());
    assert!(preamble.fits());
    assert_eq!(preamble.witness_offset(0), Some(17));
    assert_eq!(preamble.witness_offset(1), Some(17 + 73));
    assert_eq!(preamble.witness_offset(2), None);
    assert_eq!(preamble.constraint_offset(0), Some(17 + 2 * 73));
    assert_eq!(preamble.constraint_offset(2), Some(17 + 2 * 73 + 2 * 449));
    assert_eq!(preamble.constraint_offset(3), None);
    assert_eq!(preamble.source_cache_offset(), 17 + 2 * 73 + 3 * 449);

    let zeroed = Preamble::new(2, 3, *Config::new().with_zeroed_scalar_values(true));
    assert_eq!(zeroed.witness_offset(1), Some(17 + 41));
    assert_eq!(zeroed.source_cache_offset(), 17 + 2 * 41 + 3 * 65);

    assert!(!Preamble::new(usize::MAX, 1, Config::default()).fits());
}

#[test]
fn decoder_context_fetches_by_index() {
    let names = vec![String::from("a.rs"), String::from("b.rs")];
    let contents = vec![String::from("fn a() {}")];
    let config = Config::default();
    let ctx = DecoderContext::new(&config, &names, &contents);

    assert_eq!(ctx.fetch_name(1), Some("b.rs"));
    assert_eq!(ctx.fetch_name(2), None);
    assert_eq!(ctx.fetch_contents(0), Some("fn a() {}"));
    assert_eq!(ctx.fetch_contents(1), None);
    assert_eq!(*ctx.config(), config);
}

#[test]
fn errors_have_messages() {
    assert_eq!(Error::InvalidWitness.message(), "attempt to fetch invalid witness");
    assert_eq!(Error::InvalidConstraint.message(), "attempt to fetch invalid constraint");
}

#[test]
fn short_buffers_are_refused() {
    let ctx = DecoderContext::base();
    assert_eq!(u64::try_from_buffer(&ctx, &[1, 2]), Err(Error::BufferTooSmall));
    assert_eq!(Scalar::try_from_buffer(&ctx, &[1u8; 31]), Err(Error::BufferTooSmall));
    assert_eq!(u64::try_from_buffer(&ctx, &7u64.to_le_bytes()), Ok(7));
}

#[test]
fn missing_cache_entries_are_refused() {
    let preamble = Preamble::new(1, 0, Config::default());
    let mut context = EncoderContext::from_preamble(preamble);
    let witness = EncodableWitness::new(0, None, scalar(9), EncodableSource::new(4, 5, String::from("a.rs")));
    let bytes = witness.to_vec(&mut context);
    assert_eq!(bytes.len(), 73);

    let config = Config::default();
    let none: Vec<String> = vec![];
    let names = vec![String::from("/a.rs")];
    let contents = vec![String::from("fn main() {}")];

    let ctx = DecoderContext::new(&config, &none, &none);
    assert_eq!(Witness::try_from_buffer(&ctx, &bytes).err(), Some(Error::MissingSourceName));

    let ctx = DecoderContext::new(&config, &names, &none);
    assert_eq!(Witness::try_from_buffer(&ctx, &bytes).err(), Some(Error::MissingSourceContents));

    let ctx = DecoderContext::new(&config, &names, &contents);
    let w = Witness::try_from_buffer(&ctx, &bytes).expect("witness");
    assert_eq!(w.id(), 0);
    assert_eq!(w.constraint(), None);
    assert_eq!(*w.value(), scalar(9));
    assert_eq!((w.line(), w.col()), (4, 5));
    assert_eq!((w.name(), w.contents()), ("/a.rs", "fn main() {}"));
}

#[test]
fn malformed_source_caches_are_refused() {
    let mut not_array = vec![0u8; 17];
    not_array.extend([0xc0, 0xc0]);
    assert_eq!(CircuitDescription::from_reader(not_array).err(), Some(Error::SourceCacheNotArray));

    let mut map = vec![0u8; 17];
    map.extend([0x81, 0xa1, b'a', 0x01, 0x90]);
    assert_eq!(CircuitDescription::from_reader(map).err(), Some(Error::SourceCacheNotArray));

    let mut names_not_strings = vec![0u8; 17];
    names_not_strings.extend([0x91, 0x01, 0x90]);
    assert_eq!(CircuitDescription::from_reader(names_not_strings).err(), Some(Error::SourceNamesNotStrings));

    let mut contents_not_strings = vec![0u8; 17];
    contents_not_strings.extend([0x90, 0x91, 0x01]);
    assert_eq!(CircuitDescription::from_reader(contents_not_strings).err(), Some(Error::SourceContentsNotStrings));

    let mut empty_cache = vec![0u8; 17];
    empty_cache.extend([0x90, 0x90]);
    let cdf = CircuitDescription::from_reader(empty_cache).expect("empty circuit");
    assert_eq!(cdf.preamble().witnesses, 0);
    assert_eq!(cdf.source_names().len(), 0);
}

#[test]
fn source_cache_is_two_string_arrays() {
    let mut writer = vec![7u8];
    let n = write_source_cache(&vec![String::from("a")], &vec![String::from("bc")], &mut writer);
    assert_eq!(n, Ok(7));
    assert_eq!(writer, vec![7, 0x91, 0xa1, b'a', 0x91, 0xa2, b'b', b'c']);

    let mut writer = Vec::new();
    assert_eq!(write_source_cache(&vec![], &vec![], &mut writer), Ok(2));
    assert_eq!(writer, vec![0x90, 0x90]);
}

fn element_prop<T>(len: usize, data: T)
where
    T: EncodableElement + DecodableElement + PartialEq + fmt::Debug + Clone,
{
    let min = T::len(&Default::default());
    assert!(len >= min);

    data.validate(&Default::default()).expect("valid element");

    let mut buffer = vec![0u8; len];
    data.to_buffer(&mut EncoderContext::from_preamble(Default::default()), &mut buffer);
    assert_eq!(T::try_from_buffer(&DecoderContext::base(), &buffer), Ok(data.clone()));

    let mut opt = Some(data.clone());
    let len = <Option<T>>::len(&Default::default());
    let mut buffer = vec![0u8; len];
    opt.to_buffer(&mut EncoderContext::from_preamble(Default::default()), &mut buffer);
    assert_eq!(<Option<T>>::try_from_buffer(&DecoderContext::base(), &buffer), Ok(Some(data)));

    opt.take();
    opt.to_buffer(&mut EncoderContext::from_preamble(Default::default()), &mut buffer);
    assert_eq!(<Option<T>>::try_from_buffer(&DecoderContext::base(), &buffer), Ok(None));
}

#[test]
fn elements() {
    for len in [0usize, 3, 64, 200, 600] {
        if len >= 1 {
            element_prop(len, true);
            element_prop(len, false);
            element_prop(len, *Config::new().with_zeroed_scalar_values(true));
        }
        element_prop(len, ());
        if len >= 8 {
            element_prop(len, u64::MAX);
            element_prop(len, 12345usize);
        }
        if len >= 17 {
            element_prop(len, Preamble::new(3, 7, *Config::new().with_zeroed_scalar_values(true)));
        }
        if len >= 24 {
            element_prop(len, EncodedSource::new(4, 9, 2));
        }
        if len >= 32 {
            element_prop(len, scalar(0x5a));
            element_prop(len, WiredWitnesses { a: 1, b: 2, d: 3, o: usize::MAX });
        }
        if len >= 384 {
            element_prop(len, polynomial(true).selectors);
        }
        if len >= 417 {
            element_prop(len, polynomial(false));
        }
    }
}

struct DiskProvider {
    disk: HashMap<String, String>,
}

impl EncoderContextProvider for DiskProvider {
    fn canonicalize(&mut self, path: &str) -> Result<String, Error> {
        Ok(path.to_string())
    }

    fn contents(&mut self, path: &str) -> Result<String, Error> {
        self.disk.get(path).cloned().ok_or(Error::SourceUnavailable)
    }
}

#[test]
fn encode_decode_works() {
    for zeroed in [false, true] {
        let config = *Config::new().with_zeroed_scalar_values(zeroed);
        let disk: HashMap<String, String> = vec![
            (String::from("a1b2"), String::from("fn a() {}\n")),
            (String::from("c3d4"), String::from("fn c() {}\nfn d() {}\n")),
        ]
        .into_iter()
        .collect();

        let witnesses: Vec<EncodableWitness> = (0..3)
            .map(|id| {
                let path = if id % 2 == 0 { "a1b2" } else { "c3d4" };
                EncodableWitness::new(id, if id == 1 { Some(0) } else { None }, scalar(id as u8 + 1), EncodableSource::new(id as u64 + 1, 2, String::from(path)))
            })
            .collect();
        let constraints: Vec<EncodableConstraint> = (0..2)
            .map(|id| EncodableConstraint::new(id, polynomial(id == 0), EncodableSource::new(7, 1, String::from("c3d4"))))
            .collect();

        let mut encoder = Encoder::init_cursor(config, witnesses.clone(), constraints.clone());
        encoder.write_all(&mut DiskProvider { disk: disk.clone() }).expect("encoding failed");

        let circuit = CircuitDescription::from_reader(encoder.into_inner()).expect("failed to read");

        for witness in &witnesses {
            let w = circuit.fetch_witness(witness.id()).expect("witness");
            let value = if zeroed { Scalar::default() } else { *witness.value() };
            assert_eq!(w.id(), witness.id());
            assert_eq!(w.constraint(), witness.constraint());
            assert_eq!(*w.value(), value);
            assert_eq!(w.line(), witness.source().line());
            assert_eq!(w.col(), witness.source().col());
            assert_eq!(w.name(), witness.source().path());
            assert_eq!(w.contents(), disk[witness.source().path()].as_str());
        }

        for constraint in &constraints {
            let c = circuit.fetch_constraint(constraint.id()).expect("constraint");
            let mut polynomial = *constraint.polynomial();
            if zeroed {
                polynomial.selectors = Selectors::default();
            }
            assert_eq!(c.id(), constraint.id());
            assert_eq!(*c.polynomial(), polynomial);
            assert_eq!(c.name(), constraint.source().path());
            assert_eq!(c.contents(), disk[constraint.source().path()].as_str());
        }
    }
}

#[test]
fn nested_or_extended_caches_are_refused() {
    let mut nested = vec![0u8; 17];
    nested.extend([0x91, 0x91, 0x01, 0x90]);
    assert_eq!(CircuitDescription::from_reader(nested).err(), Some(Error::SourceNamesNotStrings));

    let mut nested_map = vec![0u8; 17];
    nested_map.extend([0x90, 0x91, 0x81, 0x01, 0x02]);
    assert_eq!(CircuitDescription::from_reader(nested_map).err(), Some(Error::SourceContentsNotStrings));

    let mut twice_nested = vec![0u8; 17];
    twice_nested.extend([0x91, 0x91, 0x91, 0x01, 0x90]);
    assert_eq!(CircuitDescription::from_reader(twice_nested).err(), Some(Error::MalformedSourceCache));

    let mut deep = vec![0u8; 17];
    deep.extend(std::iter::repeat(0x91u8).take(100_000));
    assert_eq!(CircuitDescription::from_reader(deep).err(), Some(Error::MalformedSourceCache));

    let mut timestamp = vec![0u8; 17];
    timestamp.extend([0xc7, 0x0c, 0xff]);
    timestamp.extend([0xffu8; 12]);
    assert_eq!(CircuitDescription::from_reader(timestamp).err(), Some(Error::MalformedSourceCache));

    let mut long_string = vec![0u8; 17];
    long_string.extend([0xdb, 0xff, 0xff, 0xff, 0xff, b'a']);
    assert_eq!(CircuitDescription::from_reader(long_string).err(), Some(Error::MalformedSourceCache));
}

#[test]
fn empty_circuit_encodes_an_empty_cache() {
    let mut encoder = Encoder::init_cursor(Config::default(), vec![], vec![]);
    let n = encoder.write_all(&mut FailingProvider).expect("no source is asked for");
    let bytes = encoder.into_inner();
    assert_eq!(n, 17 + 2);
    assert_eq!(&bytes[17..], &[0x90, 0x90]);
}

#[test]
fn zeroed_scalar_decodes_in_place_as_zero() {
    let config = *Config::new().with_zeroed_scalar_values(true);
    let names: Vec<String> = vec![];
    let ctx = DecoderContext::new(&config, &names, &names);
    let mut s = Scalar::from([0xfa; Scalar::LEN]);

    s.try_from_buffer_in_place(&ctx, &[]).expect("decode");
    assert_eq!(s, Scalar::default());
}

fn assert_witness_read_back(w: &Witness, e: &EncodableWitness) {
    assert_eq!(w.id(), e.id());
    assert_eq!(w.constraint(), e.constraint());
    assert_eq!(w.value(), e.value());
    assert_eq!(w.line(), e.source().line());
    assert_eq!(w.col(), e.source().col());
    assert_eq!(w.name(), format!("/src/{}", e.source().path()));
}

fn assert_constraint_read_back(c: &dusk_cdf::Constraint, e: &EncodableConstraint) {
    assert_eq!(c.id(), e.id());
    assert_eq!(c.polynomial(), e.polynomial());
    assert_eq!(c.line(), e.source().line());
    assert_eq!(c.col(), e.source().col());
    assert_eq!(c.name(), format!("/src/{}", e.source().path()));
}

/// Witnesses and constraints with ids running from zero, spread over a few sources.
fn sound_circuit(witnesses: usize, constraints: usize) -> (Vec<EncodableWitness>, Vec<EncodableConstraint>) {
    let paths = ["main.rs", "lib.rs", "gadget.rs"];
    let ws = (0..witnesses)
        .map(|i| {
            let constraint = if constraints == 0 { None } else { Some(i % constraints) };
            EncodableWitness::new(i, constraint, scalar(i as u8), EncodableSource::new(i as u64, 1, String::from(paths[i % 3])))
        })
        .collect();
    let cs = (0..constraints)
        .map(|i| EncodableConstraint::new(i, polynomial(i % 2 == 0), EncodableSource::new(i as u64 + 7, 2, String::from(paths[(i + 1) % 3]))))
        .collect();
    (ws, cs)
}

/// A fixed reordering of `items`: the odd positions reversed, then the even ones.
fn shuffled<T: Clone>(items: &[T]) -> Vec<T> {
    let mut out: Vec<T> = items.iter().skip(1).step_by(2).cloned().collect();
    out.reverse();
    out.extend(items.iter().step_by(2).cloned());
    out
}

#[test]
fn shuffled_circuit_is_sound_after_validation() {
    for (nw, nc) in [(1, 0), (1, 1), (1, 10), (100, 1000)] {
        let (witnesses, constraints) = sound_circuit(nw, nc);
        let shuffled_w = shuffled(&witnesses);
        let shuffled_c = shuffled(&constraints);

        if witnesses.len() > 1 {
            assert_ne!(witnesses, shuffled_w);
        }
        if constraints.len() > 1 {
            assert_ne!(constraints, shuffled_c);
        }

        let mut encoder = Encoder::init_cursor(Config::default(), shuffled_w, shuffled_c);
        encoder.write_all(&mut MemoryProvider).expect("encoder failed to receive shuffled input");

        let cdf = CircuitDescription::from_reader(encoder.into_inner()).expect("failed to open cdf");

        for w in &witnesses {
            let w_p = cdf.fetch_witness(w.id()).expect("failed to fetch witnesss");
            assert_witness_read_back(&w_p, w);
        }
        for c in &constraints {
            let c_p = cdf.fetch_constraint(c.id()).expect("failed to fetch constraint");
            assert_constraint_read_back(&c_p, c);
        }
    }
}

#[test]
fn single_witness_circuit_is_valid() {
    let witness = EncodableWitness::new(0, None, scalar(0x3a), EncodableSource::new(1, 1, String::from("single.rs")));

    let mut encoder = Encoder::init_cursor(Config::default(), vec![witness], vec![]);
    encoder.write_all(&mut MemoryProvider).expect("encoder failed to receive shuffled input");

    let cdf = CircuitDescription::from_reader(encoder.into_inner()).expect("failed to open cdf");
    let preamble = cdf.preamble();

    assert_eq!(preamble.witnesses, 1);
    assert_eq!(preamble.constraints, 0);
}

#[test]
fn witness_must_start_at_zero() {
    let witness = EncodableWitness::new(1, None, scalar(0x3a), EncodableSource::new(1, 1, String::from("single.rs")));

    let result = Encoder::init_cursor(Config::default(), vec![witness], vec![]).write_all(&mut MemoryProvider);

    assert_eq!(result, Err(Error::WitnessesNotDense));
}

#[test]
fn constraint_must_start_at_zero() {
    let (witnesses, constraints) = sound_circuit(1, 1);
    let witness = witnesses[0].clone();
    let polynomial = *constraints[0].polynomial();

    let constraint = EncodableConstraint::new(0, polynomial, EncodableSource::new(3, 1, String::from("gadget.rs")));

    // Sanity check
    Encoder::init_cursor(Config::default(), vec![witness.clone()], vec![constraint])
        .write_all(&mut MemoryProvider)
        .expect("failed to validate circuit");

    let constraint = EncodableConstraint::new(1, polynomial, EncodableSource::new(4, 1, String::from("gadget.rs")));

    let result = Encoder::init_cursor(Config::default(), vec![witness], vec![constraint]).write_all(&mut MemoryProvider);

    assert_eq!(result, Err(Error::ConstraintsNotDense));
}

#[test]
fn repeated_ids_are_refused() {
    let (mut witnesses, constraints) = sound_circuit(3, 2);
    witnesses[2] = EncodableWitness::new(0, None, scalar(9), EncodableSource::new(9, 1, String::from("main.rs")));
    let result = Encoder::init_cursor(Config::default(), witnesses, constraints).write_all(&mut MemoryProvider);
    assert_eq!(result, Err(Error::WitnessesNotDense));

    let (witnesses, mut constraints) = sound_circuit(3, 2);
    constraints[0] = EncodableConstraint::new(1, polynomial(true), EncodableSource::new(9, 1, String::from("lib.rs")));
    let result = Encoder::init_cursor(Config::default(), witnesses, constraints).write_all(&mut MemoryProvider);
    assert_eq!(result, Err(Error::ConstraintsNotDense));
}

#[test]
fn circuit_data_seek_works_for_witness_and_constraints() {
    let config = Config::default();
    for (nw, nc) in [(1, 0), (1, 10), (10, 0), (10, 100)] {
        let (witnesses, constraints) = sound_circuit(nw, nc);

        let mut encoder = Encoder::init_cursor(config, witnesses.clone(), constraints.clone());
        encoder.write_all(&mut MemoryProvider).expect("encoder failed to receive shuffled input");

        let circuit = CircuitDescription::from_reader(encoder.into_inner()).expect("failed to open circuit");

        assert_eq!(circuit.preamble().witnesses, nw);
        assert_eq!(circuit.preamble().constraints, nc);
        assert_eq!(circuit.preamble().config, config);

        for (idx, witness) in witnesses.iter().enumerate().rev() {
            let w = circuit.fetch_witness(idx).expect("failed to fetch witness");
            assert_witness_read_back(&w, witness);
        }

        for (idx, constraint) in constraints.iter().enumerate().rev() {
            let c = circuit.fetch_constraint(idx).expect("failed to fetch constraint");
            assert_constraint_read_back(&c, constraint);
        }

        // check if won't panic on invalid idx
        assert!(circuit.fetch_witness(witnesses.len()).is_err());
        assert!(circuit.fetch_constraint(constraints.len()).is_err());
    }
}

#[test]
fn equal_paths_share_a_cache_entry() {
    let mut context = EncoderContext::from_preamble(Default::default());

    assert_eq!(context.add_path(String::from("a/b")), 0);
    assert_eq!(context.add_path(String::from("a//b")), 0);
    assert_eq!(context.add_path(String::from("a/./b")), 0);
    assert_eq!(context.add_path(String::from("a/b/")), 0);
    assert_eq!(context.add_path(String::from("./a/b")), 1);
    assert_eq!(context.add_path(String::from("/a/b")), 2);
    assert_eq!(context.add_path(String::from("a/b")), 0);
    assert_eq!(context.paths().len(), 3);
}

#[test]
fn preamble_survives_any_calls() {
    let mut debugger = debugger();
    let preamble = *debugger.preamble();
    let config = *debugger.config();

    let _ = debugger.step();
    let _ = debugger.cont();
    let _ = debugger.goto(100);
    let _ = debugger.goto(3);
    let _ = debugger.afore();
    let _ = debugger.turn();
    let b = debugger.add_breakpoint(String::from("main.rs"), Some(2));
    let _ = debugger.remove_breakpoint(b);
    let _ = debugger.remove_breakpoint(b);
    debugger.clear_breakpoints("main.rs");

    assert_eq!(*debugger.preamble(), preamble);
    assert_eq!(*debugger.config(), config);
    assert_eq!(preamble.witnesses, 4);
    assert_eq!(preamble.constraints, 7);
}
