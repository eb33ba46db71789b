//! The configuration layer: value parsing, key resolution, option access,
//! and the chain builder.

use llm_samplers::configure::{configure, get_option, set_option, ConfigurableSampler};
use llm_samplers::prelude::{
    BuildSamplersError, ConfigureSamplerError, Fx, Logits, SampleFreqPresence, SampleGreedy,
    SampleLocallyTypical, SampleMinP, SampleMirostat1, SampleMirostat2, SampleRepetition,
    SampleSeqRepetition, SampleTailFree, SampleTemperature, SampleTopA, SampleTopK, SampleTopP,
    SamplerChainBuilder, SamplerKind, SamplerOptionType, SamplerOptionValue, SamplerSlot,
    SimpleSamplerResources,
};

fn fx(x: f64) -> Fx {
    if x == f64::INFINITY {
        Fx::inf()
    } else if x == f64::NEG_INFINITY {
        Fx::neg_inf()
    } else {
        Fx::from_raw((x * 16777216.0).round() as i64)
    }
}

#[test]
fn test_parse_uint() {
    assert_eq!(
        SamplerOptionValue::parse_value(SamplerOptionType::UInt, "1").unwrap(),
        SamplerOptionValue::UInt(1)
    );
    assert!(SamplerOptionValue::parse_value(SamplerOptionType::UInt, "-1").is_err());
    assert!(SamplerOptionValue::parse_value(SamplerOptionType::UInt, "derp").is_err());
}

#[test]
fn test_parse_float() {
    assert_eq!(
        SamplerOptionValue::parse_value(SamplerOptionType::Float, "1").unwrap(),
        SamplerOptionValue::Float(fx(1.0))
    );
    assert_eq!(
        SamplerOptionValue::parse_value(SamplerOptionType::Float, "-1").unwrap(),
        SamplerOptionValue::Float(fx(-1.0))
    );
    assert_eq!(
        SamplerOptionValue::parse_value(SamplerOptionType::Float, ".1").unwrap(),
        SamplerOptionValue::Float(fx(0.1))
    );
    assert_eq!(
        SamplerOptionValue::parse_value(SamplerOptionType::Float, "-.1").unwrap(),
        SamplerOptionValue::Float(fx(-0.1))
    );
    assert_eq!(
        SamplerOptionValue::parse_value(SamplerOptionType::Float, "inf").unwrap(),
        SamplerOptionValue::Float(Fx::inf())
    );
    assert_eq!(
        SamplerOptionValue::parse_value(SamplerOptionType::Float, "-inf").unwrap(),
        SamplerOptionValue::Float(Fx::neg_inf())
    );
    assert!(SamplerOptionValue::parse_value(SamplerOptionType::UInt, "derp").is_err());
}

#[test]
fn test_set_get_options() {
    let mut samp = SampleTemperature::new(fx(5.0));
    assert_eq!(
        get_option(&samp, "temperature").unwrap(),
        SamplerOptionValue::Float(fx(5.0))
    );
    assert!(set_option(&mut samp, "temperature", SamplerOptionValue::Bool(true)).is_err());
    set_option(&mut samp, "temperature", SamplerOptionValue::Float(fx(8.0))).unwrap();
    assert_eq!(
        get_option(&samp, "temperature").unwrap(),
        SamplerOptionValue::Float(fx(8.0))
    );
}

#[test]
fn test_config_from_str1() {
    let mut samp = SampleTemperature::new(fx(5.0));

    configure(&mut samp, "7.0").unwrap();
    assert_eq!(
        get_option(&samp, "temperature").unwrap(),
        SamplerOptionValue::Float(fx(7.0))
    );
    assert!(configure(&mut samp, "xyz=2.0").is_err());
    configure(&mut samp, " temperature =   7.0 ").unwrap();
    assert_eq!(
        get_option(&samp, "temperature").unwrap(),
        SamplerOptionValue::Float(fx(7.0))
    );
}

#[test]
fn test_config_from_str2() {
    let mut samp = SampleFreqPresence::default();

    configure(&mut samp, "frequency_penalty=inf : presence_penalty=-inf : last_n =69").unwrap();
    assert_eq!(
        get_option(&samp, "frequency_penalty").unwrap(),
        SamplerOptionValue::Float(Fx::inf())
    );
    assert_eq!(
        get_option(&samp, "presence_penalty").unwrap(),
        SamplerOptionValue::Float(Fx::neg_inf())
    );
    assert_eq!(
        get_option(&samp, "last_n").unwrap(),
        SamplerOptionValue::UInt(69)
    );
    configure(&mut samp, "f=-inf : pres=inf : last =96").unwrap();
    assert_eq!(
        get_option(&samp, "frequency_penalty").unwrap(),
        SamplerOptionValue::Float(Fx::neg_inf())
    );
    assert_eq!(
        get_option(&samp, "presence_penalty").unwrap(),
        SamplerOptionValue::Float(Fx::inf())
    );
    assert_eq!(
        get_option(&samp, "last_n").unwrap(),
        SamplerOptionValue::UInt(96)
    );
}

#[test]
fn test_build1() {
    let mut ss = SamplerChainBuilder::from_slots(vec![
        (
            "rep".to_string(),
            SamplerSlot::new_chain(
                SamplerKind::Repetition(SampleRepetition::new(fx(0.0), 0)),
                vec![],
            ),
        ),
        (
            "freqpres".to_string(),
            SamplerSlot::new_single(
                SamplerKind::FreqPresence(SampleFreqPresence::new(fx(0.0), fx(0.0), 0)),
                None,
            ),
        ),
        (
            "greedy".to_string(),
            SamplerSlot::new_static(SamplerKind::Greedy(SampleGreedy::new())),
        ),
    ]);

    ss.configure("rep", "penalty=1.1:last_n=64").unwrap();
    ss.configure("rep", "penalty=1.1:last_n=64").unwrap();
    ss.configure("freqpres", "frequency=.5").unwrap();
    ss.configure("freqpres", "last_n=4").unwrap();

    let mut sc = ss.into_chain();

    let mut res = SimpleSamplerResources::new(None, Some(vec![0, 1, 2, 3, 3, 0, 0]));
    let vals: Vec<Fx> = [0.2f64, 0.2, 0.2, 0.2].iter().map(|&v| fx(v)).collect();
    let mut logits = Logits::try_from_iter(vals).unwrap();
    let tok = sc.sample_token(&mut res, &mut logits).unwrap();
    assert_eq!(tok, Some(1));
}

#[test]
fn builder_rejects_unknown_and_static_slots() {
    let mut ss = SamplerChainBuilder::from_slots(vec![(
        "greedy".to_string(),
        SamplerSlot::new_static(SamplerKind::Greedy(SampleGreedy::new())),
    )]);
    assert!(matches!(
        ss.configure("nope", ""),
        Err(BuildSamplersError::UnknownSlot(_))
    ));
    assert!(matches!(
        ss.configure("greedy", ""),
        Err(BuildSamplersError::CannotConfigureStatic(_))
    ));
}

fn roundtrip_all<S: ConfigurableSampler>(samp: &mut S, keys: &[&str], vals: &[SamplerOptionValue]) {
    // Setting any declared option and reading it back yields the value
    // just written.
    for (k, v) in keys.iter().zip(vals.iter()) {
        set_option(samp, k, v.clone()).unwrap();
        assert_eq!(get_option(samp, k).unwrap(), v.clone(), "option {k}");
    }
}

#[test]
fn set_get_round_trip_every_sampler() {
    roundtrip_all(
        &mut SampleTopK::new(1, 1),
        &["k", "min_keep"],
        &[SamplerOptionValue::UInt(7), SamplerOptionValue::UInt(2)],
    );
    roundtrip_all(
        &mut SampleTopP::new(fx(0.5), 1),
        &["p", "min_keep"],
        &[SamplerOptionValue::Float(fx(0.25)), SamplerOptionValue::UInt(2)],
    );
    roundtrip_all(
        &mut SampleMinP::new(fx(0.5), 1),
        &["p", "min_keep"],
        &[SamplerOptionValue::Float(fx(0.125)), SamplerOptionValue::UInt(3)],
    );
    roundtrip_all(
        &mut SampleTopA::new(fx(0.5), fx(2.0), 1),
        &["a1", "a2", "min_keep"],
        &[
            SamplerOptionValue::Float(fx(0.25)),
            SamplerOptionValue::Float(fx(3.0)),
            SamplerOptionValue::UInt(2),
        ],
    );
    roundtrip_all(
        &mut SampleTailFree::new(fx(0.5), 1),
        &["z", "min_keep"],
        &[SamplerOptionValue::Float(fx(0.75)), SamplerOptionValue::UInt(2)],
    );
    roundtrip_all(
        &mut SampleLocallyTypical::new(fx(0.5), 1),
        &["p", "min_keep"],
        &[SamplerOptionValue::Float(fx(0.75)), SamplerOptionValue::UInt(2)],
    );
    roundtrip_all(
        &mut SampleTemperature::new(fx(1.0)),
        &["temperature"],
        &[SamplerOptionValue::Float(fx(0.8))],
    );
    roundtrip_all(
        &mut SampleRepetition::new(fx(1.1), 64),
        &["penalty", "last_n"],
        &[SamplerOptionValue::Float(fx(1.3)), SamplerOptionValue::UInt(32)],
    );
    roundtrip_all(
        &mut SampleFreqPresence::default(),
        &["frequency_penalty", "presence_penalty", "last_n"],
        &[
            SamplerOptionValue::Float(fx(0.5)),
            SamplerOptionValue::Float(fx(0.25)),
            SamplerOptionValue::UInt(16),
        ],
    );
    roundtrip_all(
        &mut SampleSeqRepetition::default(),
        &["flat_penalty", "stacking_penalty", "min_length", "tolerance", "max_merge", "last_n"],
        &[
            SamplerOptionValue::Float(fx(1.0)),
            SamplerOptionValue::Float(fx(2.0)),
            SamplerOptionValue::UInt(3),
            SamplerOptionValue::UInt(1),
            SamplerOptionValue::UInt(2),
            SamplerOptionValue::UInt(48),
        ],
    );
    roundtrip_all(
        &mut SampleMirostat1::new(4, fx(5.0), fx(0.1)),
        &["eta", "mu", "n_vocab"],
        &[
            SamplerOptionValue::Float(fx(0.2)),
            SamplerOptionValue::Float(fx(9.0)),
            SamplerOptionValue::UInt(1000),
        ],
    );
    roundtrip_all(
        &mut SampleMirostat2::new(fx(5.0), fx(0.1)),
        &["tau", "eta", "mu"],
        &[
            SamplerOptionValue::Float(fx(4.0)),
            SamplerOptionValue::Float(fx(0.2)),
            SamplerOptionValue::Float(fx(9.0)),
        ],
    );
}

#[test]
fn setting_tau_resets_mu() {
    let mut samp = SampleMirostat2::new(fx(5.0), fx(0.1));
    set_option(&mut samp, "tau", SamplerOptionValue::Float(fx(3.0))).unwrap();
    assert_eq!(
        get_option(&samp, "mu").unwrap(),
        SamplerOptionValue::Float(fx(6.0))
    );
    // Setting mu afterward overrides the dependent reset.
    set_option(&mut samp, "mu", SamplerOptionValue::Float(fx(1.5))).unwrap();
    assert_eq!(
        get_option(&samp, "mu").unwrap(),
        SamplerOptionValue::Float(fx(1.5))
    );
}

#[test]
fn key_resolution_cases() {
    // Zero matches fail as unknown; two or more as ambiguous; an empty key
    // resolves only on a single-option sampler.
    let fp = SampleFreqPresence::default();
    assert!(matches!(
        get_option(&fp, "zzz"),
        Err(ConfigureSamplerError::UnknownOrBadType(_))
    ));
    let sr = SampleSeqRepetition::default();
    assert!(matches!(
        get_option(&sr, "m"),
        Err(ConfigureSamplerError::AmbiguousKey(_))
    ));
    assert!(matches!(
        get_option(&fp, ""),
        Err(ConfigureSamplerError::AmbiguousKey(_))
    ));
    let temp = SampleTemperature::new(fx(1.0));
    assert_eq!(
        get_option(&temp, "").unwrap(),
        SamplerOptionValue::Float(fx(1.0))
    );
}

#[test]
fn conversion_failure_on_overflowing_uint() {
    let mut samp = SampleTopK::new(1, 1);
    let r = set_option(
        &mut samp,
        "k",
        SamplerOptionValue::UInt(u64::MAX),
    );
    if usize::MAX as u64 == u64::MAX {
        assert!(r.is_ok());
    } else {
        assert!(matches!(r, Err(ConfigureSamplerError::ConversionFailure(_))));
    }
}

#[test]
fn string_values_are_trimmed_verbatim() {
    match SamplerOptionValue::parse_value(SamplerOptionType::String, "  some text  ").unwrap() {
        SamplerOptionValue::String(s) => assert_eq!(s, "some text"),
        other => panic!("expected string, got {other:?}"),
    }
}

#[test]
fn bool_literals_are_case_sensitive_words() {
    for (txt, expect) in [("true", true), ("t", true), ("yes", true), ("1", true), (
        "false",
        false,
    ), ("f", false), ("no", false), ("0", false)] {
        assert_eq!(
            SamplerOptionValue::parse_value(SamplerOptionType::Bool, txt).unwrap(),
            SamplerOptionValue::Bool(expect)
        );
    }
    assert!(SamplerOptionValue::parse_value(SamplerOptionType::Bool, "TRUE").is_err());
    assert!(SamplerOptionValue::parse_value(SamplerOptionType::Bool, "maybe").is_err());
}
