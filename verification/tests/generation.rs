use sign_census::count_elements_single;
use sign_census::generate_data;

#[test]
fn generated_array_has_requested_length() {
    let data = generate_data(100, 5);
    assert_eq!(data.len(), 100);
}

#[test]
fn generated_values_stay_inside_the_bound() {
    let data = generate_data(500, 5);
    for &x in &data {
        assert!(-5 <= x && x <= 5);
    }
}

#[test]
fn zero_bound_forces_every_element_to_zero() {
    let data = generate_data(50, 0);
    let counts = count_elements_single(&data);
    assert_eq!(counts.zeros, 50);
    assert_eq!(counts.positives, 0);
    assert_eq!(counts.negatives, 0);
}

#[test]
fn zero_length_gives_an_empty_array() {
    let data = generate_data(0, 1000);
    assert!(data.is_empty());
}
