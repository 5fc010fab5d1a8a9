use boolean_network_sketches::data_loading::{is_whitespace, split_lines, trim};
use boolean_network_sketches::data_loading::{observations_from_string, split_raw_observations};
use boolean_network_sketches::data_encoding::{
    encode_multiple_observations, encode_observation, encode_observation_list_hctl,
};
use boolean_network_sketches::data_loading::{
    generate_observation_list, is_valid_in_name, parse_observ_type, parse_observations,
    parse_var_names,
};
use boolean_network_sketches::observations::{
    Observation, ObservationList, ObservationType, VarValue,
};

#[test]
/// Test encoding of an observation.
fn data_encoding_test_observation_encoding() {
    let prop_names = vec![
        "a".to_string(),
        "b".to_string(),
        "c".to_string(),
        "d".to_string(),
        "e".to_string(),
    ];

    let observation1 = Observation::try_from_str("001-1".to_string()).unwrap();
    let encoded1 = "(~a & ~b & c & e)";
    assert_eq!(
        encode_observation(&observation1, &prop_names).unwrap(),
        encoded1
    );

    let observation2 = Observation::try_from_str("001--".to_string()).unwrap();
    let encoded2 = "(~a & ~b & c)";
    assert_eq!(
        encode_observation(&observation2, &prop_names).unwrap(),
        encoded2
    );

    let observation3 = Observation::try_from_str("-----".to_string()).unwrap();
    let encoded3 = "(true)";
    assert_eq!(
        encode_observation(&observation3, &prop_names).unwrap(),
        encoded3
    );

    assert_eq!(
        encode_multiple_observations(&vec![observation1, observation2, observation3], &prop_names)
            .unwrap(),
        vec![encoded1, encoded2, encoded3]
    );
}

#[test]
/// Test encoding of a list of observations of various kinds.
fn test_attractor_observations_encoding() {
    let observation1 = Observation::try_from_str("110".to_string()).unwrap();
    let observation2 = Observation::try_from_str("1-1".to_string()).unwrap();
    let raw_observations = vec![observation1, observation2];
    let prop_names = vec!["a".to_string(), "b".to_string(), "c".to_string()];

    let attr_observations = ObservationList::new(
        raw_observations.clone(),
        prop_names.clone(),
        ObservationType::Attractor,
    );
    assert_eq!(
        encode_observation_list_hctl(attr_observations).unwrap(),
        "((3{x}: (@{x}: ((a & b & ~c) & (AG EF ((a & b & ~c) & {x}))))) & (3{x}: (@{x}: ((a & c) & (AG EF ((a & c) & {x}))))))".to_string(),
    );

    let fixed_point_observations = ObservationList::new(
        raw_observations.clone(),
        prop_names.clone(),
        ObservationType::FixedPoint,
    );
    assert_eq!(
        encode_observation_list_hctl(fixed_point_observations).unwrap(),
        "((3{x}: (@{x}: ((a & b & ~c) & (AX ((a & b & ~c) & {x}))))) & (3{x}: (@{x}: ((a & c) & (AX ((a & c) & {x}))))))".to_string(),
    );

    let time_series_observations = ObservationList::new(
        raw_observations.clone(),
        prop_names.clone(),
        ObservationType::TimeSeries,
    );
    assert_eq!(
        encode_observation_list_hctl(time_series_observations).unwrap(),
        "(3{x}: (@{x}: ((a & b & ~c)) & EF ((a & c))))".to_string(),
    );

    let unspecified_observations = ObservationList::new(
        raw_observations.clone(),
        prop_names.clone(),
        ObservationType::Unspecified,
    );
    assert!(encode_observation_list_hctl(unspecified_observations).is_err());
}

#[test]
/// Test parsing of variable names.
fn test_observation_var_names_parsing() {
    let var_name_str = "a  | bb|ccc|f_5".to_string();
    let expected = vec![
        "a".to_string(),
        "bb".to_string(),
        "ccc".to_string(),
        "f_5".to_string(),
    ];
    assert_eq!(parse_var_names(var_name_str).unwrap(), expected);

    let var_name_str = "a  | |ccc|f_5".to_string();
    let res = parse_var_names(var_name_str);
    assert!(res.is_err());
    assert_eq!(
        res.err().unwrap(),
        "Variable name can't be empty.".to_string()
    );

    let var_name_str = "  ".to_string();
    let res = parse_var_names(var_name_str);
    assert!(res.is_err());
    assert_eq!(
        res.err().unwrap(),
        "No variable names provided.".to_string()
    );

    let var_name_str = "a | j7& |ccc|f_5".to_string();
    let res = parse_var_names(var_name_str);
    assert!(res.is_err());
    assert_eq!(
        res.err().unwrap(),
        "Unexpected char '&' in variable name.".to_string()
    );

    let var_name_str = "a o | j7& |ccc|f_5".to_string();
    let res = parse_var_names(var_name_str);
    assert!(res.is_err());
    assert_eq!(
        res.err().unwrap(),
        "Variable name can't contain spaces.".to_string()
    );
}

#[test]
/// Test parsing of observation type.
fn test_observation_type_parsing() {
    let observ_type_str = "Attractor".to_string();
    assert_eq!(
        parse_observ_type(observ_type_str).unwrap(),
        ObservationType::Attractor
    );
    let observ_type_str = "FixedPoint".to_string();
    assert_eq!(
        parse_observ_type(observ_type_str).unwrap(),
        ObservationType::FixedPoint
    );
    let observ_type_str = "TimeSeries".to_string();
    assert_eq!(
        parse_observ_type(observ_type_str).unwrap(),
        ObservationType::TimeSeries
    );
    let observ_type_str = "Unspecified".to_string();
    assert_eq!(
        parse_observ_type(observ_type_str).unwrap(),
        ObservationType::Unspecified
    );

    let observ_type_str = "Idk".to_string();
    assert!(parse_observ_type(observ_type_str).is_err());
}

#[test]
/// Test parsing of observations.
fn test_observations_parsing() {
    let observation_strings = vec!["000".to_string(), "0--".to_string(), "1-1".to_string()];
    let expected = vec![
        Observation::new(vec![VarValue::False, VarValue::False, VarValue::False]),
        Observation::new(vec![VarValue::False, VarValue::Any, VarValue::Any]),
        Observation::new(vec![VarValue::True, VarValue::Any, VarValue::True]),
    ];
    assert_eq!(parse_observations(observation_strings).unwrap(), expected);

    let observation_strings = vec![];
    assert!(parse_observations(observation_strings).is_err());

    let observation_strings = vec!["0i0".to_string()];
    assert!(parse_observations(observation_strings).is_err());

    let observation_strings = vec!["000".to_string(), "".to_string()];
    assert!(parse_observations(observation_strings).is_err());
}

#[test]
/// Test whole combined parsing step that generates ObservationList object.
fn test_combined_parsing() {
    let observation_strings = vec!["01".to_string(), "0-".to_string()];
    let var_name_str = "a  | B_2".to_string();
    let observ_type_str = "Attractor".to_string();

    let expected = ObservationList::new(
        vec![
            Observation::new(vec![VarValue::False, VarValue::True]),
            Observation::new(vec![VarValue::False, VarValue::Any]),
        ],
        vec!["a".to_string(), "B_2".to_string()],
        ObservationType::Attractor,
    );
    assert_eq!(
        generate_observation_list(observation_strings, var_name_str, observ_type_str).unwrap(),
        expected,
    );

    let invalid = generate_observation_list(
        vec!["01".to_string()],
        "a".to_string(),
        "Attractor".to_string(),
    );
    assert!(invalid.is_err());
    assert_eq!(
        invalid.err().unwrap(),
        "Observation '01' has invalid length.".to_string()
    );
}

#[test]
/// Test creating observation object from string.
fn test_observation_from_str() {
    let observation_str = "001--".to_string();
    let observation = Observation {
        values: vec![
            VarValue::False,
            VarValue::False,
            VarValue::True,
            VarValue::Any,
            VarValue::Any,
        ],
    };
    assert_eq!(
        Observation::try_from_str(observation_str).unwrap(),
        observation
    );
}

#[test]
/// Test error handling while creating observation object from string.
fn test_err_observation_from_str() {
    let observation_str1 = "0 1--".to_string();
    let observation_str2 = "0--a".to_string();
    let observation_str3 = "".to_string();

    assert!(Observation::try_from_str(observation_str1).is_err());
    assert!(Observation::try_from_str(observation_str2).is_err());
    assert!(Observation::try_from_str(observation_str3).is_err());
}

#[test]
/// Test displaying of observations.
fn test_display_observations() {
    let observation_str = "001--".to_string();
    let observation = Observation {
        values: vec![
            VarValue::False,
            VarValue::False,
            VarValue::True,
            VarValue::Any,
            VarValue::Any,
        ],
    };
    assert_eq!(observation.to_string(), observation_str);
}

#[test]
/// Test displaying of observation lists.
fn test_display_observation_list() {
    let observation1 = Observation::try_from_str("-1".to_string()).unwrap();
    let observation2 = Observation::try_from_str("00".to_string()).unwrap();
    let observation_list = ObservationList {
        observations: vec![observation1, observation2],
        var_names: vec!["a".to_string(), "b".to_string()],
        data_type: ObservationType::Attractor,
    };

    let mut observation_list_str = "2 attractor observations with vars [a, b]: \n".to_string();
    observation_list_str.push_str("> -1\n> 00\n");
    assert_eq!(observation_list.to_string(), observation_list_str);
}

#[test]
fn observation_errors_carry_messages() {
    assert_eq!(
        Observation::try_from_str("0 1--".to_string()).err().unwrap(),
        "Unexpected char ' ' in an observation.".to_string()
    );
    assert_eq!(
        Observation::try_from_str("".to_string()).err().unwrap(),
        "Observation can't be empty.".to_string()
    );
    assert_eq!(
        parse_observations(vec![]).err().unwrap(),
        "No observations provided".to_string()
    );
    assert_eq!(
        parse_observ_type("Idk".to_string()).err().unwrap(),
        "Invalid data type \"Idk\"".to_string()
    );
}

#[test]
fn value_counts() {
    let o = Observation::try_from_str("01-1-1".to_string()).unwrap();
    assert_eq!(o.num_values(), 6);
    assert_eq!(o.num_ones(), 3);
    assert_eq!(o.num_zeros(), 1);
    assert_eq!(o.num_unspecified_values(), 2);
    assert_eq!(o.num_specified_values(), 4);
    assert_eq!(Observation::new_full_true(3).to_string(), "111".to_string());
    assert_eq!(Observation::new_full_false(2).to_string(), "00".to_string());
    assert_eq!(Observation::new_full_true(0).num_values(), 0);
    assert_eq!(VarValue::Any.to_string(), "-".to_string());
    assert_eq!(ObservationType::FixedPoint.to_string(), "fixed-point".to_string());
    assert_eq!(ObservationType::TimeSeries.to_string(), "time-series".to_string());
}

#[test]
fn observation_list_with_many_observations_counts_in_decimal() {
    let observations = vec![Observation::new_full_true(1); 12];
    let list = ObservationList::new(observations, vec!["x".to_string()], ObservationType::Unspecified);
    let text = list.to_string();
    assert!(text.starts_with("12 unspecified observations with vars [x]: \n> 1\n"));
}

#[test]
fn encoding_checks_lengths() {
    let o = Observation::try_from_str("01".to_string()).unwrap();
    let props = vec!["a".to_string()];
    assert_eq!(
        encode_observation(&o, &props).err().unwrap(),
        "Numbers of observation's values and propositions differs.".to_string()
    );
    assert!(encode_multiple_observations(&[o], &props).is_err());
}

#[test]
fn unknown_observation_encodes_as_true_for_any_length() {
    for n in 1..6 {
        let o = Observation::try_from_str("-".repeat(n)).unwrap();
        let props: Vec<String> = (0..n).map(|i| format!("v{i}")).collect();
        assert_eq!(encode_observation(&o, &props).unwrap(), "(true)".to_string());
    }
}

#[test]
fn name_characters() {
    assert!(is_valid_in_name('a'));
    assert!(is_valid_in_name('7'));
    assert!(is_valid_in_name('_'));
    assert!(!is_valid_in_name('&'));
    assert!(!is_valid_in_name(' '));
    assert_eq!(
        parse_var_names("x|y|".to_string()).unwrap(),
        vec!["x".to_string(), "y".to_string()]
    );
    assert_eq!(
        parse_var_names("|x".to_string()).err().unwrap(),
        "Variable name can't be empty.".to_string()
    );
}

#[test]
fn combined_parsing_reports_first_error() {
    let r = generate_observation_list(vec!["0x".to_string()], "a |".to_string(), "Nope".to_string());
    assert_eq!(r.err().unwrap(), "Unexpected char 'x' in an observation.".to_string());
    let r = generate_observation_list(vec!["0".to_string()], "a b".to_string(), "Nope".to_string());
    assert_eq!(r.err().unwrap(), "Variable name can't contain spaces.".to_string());
    let r = generate_observation_list(vec!["0".to_string()], "a".to_string(), "Nope".to_string());
    assert_eq!(r.err().unwrap(), "Invalid data type \"Nope\"".to_string());
}

#[test]
fn data_file_is_split_into_parts() {
    let content = "a | b\n Attractor \n01\n\n# comment\n 1- \n";
    let (obs, vars, kind) = split_raw_observations(content);
    assert_eq!(obs, vec!["01".to_string(), "1-".to_string()]);
    assert_eq!(vars, "a | b".to_string());
    assert_eq!(kind, "Attractor".to_string());
    let list = observations_from_string(content).unwrap();
    assert_eq!(list.observations.len(), 2);
    assert_eq!(list.var_names, vec!["a".to_string(), "b".to_string()]);
    assert_eq!(list.data_type, ObservationType::Attractor);
    let (obs, vars, kind) = split_raw_observations("x");
    assert!(obs.is_empty());
    assert_eq!(vars, "x".to_string());
    assert_eq!(kind, "".to_string());
    assert_eq!(
        observations_from_string("a\nFixedPoint\n").err().unwrap(),
        "No observations provided".to_string()
    );
}

#[test]
fn empty_attractor_list_encodes_as_true() {
    let list = ObservationList::new(vec![], vec!["a".to_string()], ObservationType::Attractor);
    assert_eq!(encode_observation_list_hctl(list).unwrap(), "(true)".to_string());
    let list = ObservationList::new(vec![], vec!["a".to_string()], ObservationType::FixedPoint);
    assert_eq!(encode_observation_list_hctl(list).unwrap(), "(true)".to_string());
}

#[test]
fn white_space_and_trimming() {
    assert!(is_whitespace(' ') && is_whitespace('\t') && is_whitespace('\u{3000}'));
    assert!(is_whitespace('\u{85}') && is_whitespace('\u{2029}'));
    assert!(!is_whitespace('a') && !is_whitespace('\u{200b}'));
    for c in ['\u{0}', 'x', '\u{180e}', '\u{feff}', '\u{2000}', '\u{a0}'] {
        assert_eq!(is_whitespace(c), c.is_whitespace());
    }
    assert_eq!(trim("  a b \t\n"), "a b".to_string());
    assert_eq!(trim(" \u{3000} "), "".to_string());
    assert_eq!(trim("x"), "x".to_string());
    assert_eq!(trim(""), "".to_string());
}

#[test]
fn lines_as_std_splits_them() {
    for text in ["", "a", "a\n", "\n", "a\r\nb", "a\rb\n", "a\r", "a\n\nb\r\n", "\r\n\r\n", "x\ny\nz"] {
        let expected: Vec<String> = text.lines().map(String::from).collect();
        assert_eq!(split_lines(text), expected, "on {text:?}");
    }
}
