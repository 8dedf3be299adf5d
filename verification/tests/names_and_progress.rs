use drehteller::names::make_image_name;
use drehteller::names::u64_to_dec;
use drehteller::progress::Fortschritt;

#[test]
fn decimal_rendering_exact_values() {
    assert_eq!(u64_to_dec(0), "0");
    assert_eq!(u64_to_dec(7), "7");
    assert_eq!(u64_to_dec(10), "10");
    assert_eq!(u64_to_dec(207), "207");
    assert_eq!(u64_to_dec(u64::MAX), "18446744073709551615");
}

#[test]
fn image_names_exact_values() {
    assert_eq!(make_image_name(0, 0), "0_0");
    assert_eq!(make_image_name(1, 2), "1_2");
    assert_eq!(make_image_name(12, 34), "12_34");
}

#[test]
fn image_names_distinguish_pairs_with_equal_digits() {
    // Injectivity on a tricky pair: (1, 11) and (11, 1).
    assert_ne!(make_image_name(1, 11), make_image_name(11, 1));
    assert_ne!(make_image_name(12, 3), make_image_name(1, 23));
}

#[test]
fn progress_setters_and_reset() {
    let mut p = Fortschritt::new();
    assert_eq!(p.runde(), 0);
    assert_eq!(p.aufnahme(), 0);
    p.set_runde(3);
    p.set_aufnahme(5);
    assert_eq!(p.runde(), 3);
    assert_eq!(p.aufnahme(), 5);
    p.reset();
    assert_eq!(p.runde(), 0);
    assert_eq!(p.aufnahme(), 0);
}
