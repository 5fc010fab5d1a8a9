use boolean_network_sketches::bool_vectors::{bool_vec_to_string, int_to_bool_vec, next_bool_val};
use boolean_network_sketches::hctl_with_holes::{encode_obs_weight_pairs, update_weight};

#[test]
fn weights_keep_the_smaller() {
    assert_eq!(update_weight(None, 5), Some(5));
    assert_eq!(update_weight(Some(3), 5), Some(3));
    assert_eq!(update_weight(Some(7), 5), Some(5));
    assert_eq!(update_weight(Some(5), 5), Some(5));
}

#[test]
fn loosened_observations_with_weights() {
    let props = vec!["a".to_string(), "b".to_string()];
    let pairs = encode_obs_weight_pairs(&props, true).unwrap();
    assert_eq!(
        pairs,
        vec![
            ("(a & b)".to_string(), 0),
            ("(a)".to_string(), 1),
            ("(true)".to_string(), 2),
        ]
    );
    let pairs = encode_obs_weight_pairs(&props, false).unwrap();
    assert_eq!(pairs[0].0, "(~a & ~b)".to_string());
    assert_eq!(pairs[1].0, "(~a)".to_string());
    assert_eq!(
        encode_obs_weight_pairs(&[], true).err().unwrap(),
        "Observation can't be empty.".to_string()
    );
}

#[test]
fn binary_successor() {
    assert_eq!(next_bool_val(vec![false, false]).unwrap(), vec![true, false]);
    assert_eq!(next_bool_val(vec![true, false, true]).unwrap(), vec![false, true, true]);
    assert_eq!(next_bool_val(vec![true, true]).err().unwrap(), "finished".to_string());
    assert_eq!(next_bool_val(vec![]).err().unwrap(), "finished".to_string());
}

#[test]
fn bits_as_text() {
    assert_eq!(bool_vec_to_string(vec![true, false, false, true]), "1001".to_string());
    assert_eq!(bool_vec_to_string(vec![]), "".to_string());
}

#[test]
fn number_to_bits() {
    assert_eq!(int_to_bool_vec(6, 4), vec![false, true, true, false]);
    assert_eq!(int_to_bool_vec(5, 2), vec![true, false, true]);
    assert_eq!(int_to_bool_vec(0, 3), vec![false, false, false]);
    assert_eq!(int_to_bool_vec(-4, 2), vec![false, false]);
    assert_eq!(int_to_bool_vec(i32::MAX, 0).len(), 31);
}
