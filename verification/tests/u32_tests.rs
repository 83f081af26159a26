use deep_rtin::u32_extensions::{get_most_significant_bit, is_power_of_2, log_2, subtract_abs};

#[test]
fn msb_values() {
    assert_eq!(get_most_significant_bit(0), 0);
    assert_eq!(get_most_significant_bit(1), 1);
    assert_eq!(get_most_significant_bit(2), 2);
    assert_eq!(get_most_significant_bit(3), 2);
    assert_eq!(get_most_significant_bit(4), 3);
    assert_eq!(get_most_significant_bit(255), 8);
    assert_eq!(get_most_significant_bit(256), 9);
    assert_eq!(get_most_significant_bit(u32::MAX), 32);
}

#[test]
fn log2_values() {
    assert_eq!(log_2(1), 0);
    assert_eq!(log_2(2), 1);
    assert_eq!(log_2(3), 1);
    assert_eq!(log_2(8), 3);
    assert_eq!(log_2(32768), 15);
}

#[test]
fn subtract_abs_values() {
    assert_eq!(subtract_abs(3, 7), 4);
    assert_eq!(subtract_abs(7, 3), 4);
    assert_eq!(subtract_abs(5, 5), 0);
    assert_eq!(subtract_abs(0, u32::MAX), u32::MAX);
}

#[test]
fn is_power_of_2_values() {
    assert!(is_power_of_2(1));
    assert!(is_power_of_2(2));
    assert!(is_power_of_2(1024));
    assert!(is_power_of_2(32768));
    assert!(!is_power_of_2(0));
    assert!(!is_power_of_2(3));
    assert!(!is_power_of_2(6));
    assert!(!is_power_of_2(12));
    assert!(!is_power_of_2(u32::MAX));
}
