use adocpdf::length::InvalidLength;

#[test]
fn rejection_explains_which_rule_was_broken() {
    assert_eq!(InvalidLength::NotPositive.message(), "length must be greater than zero");
    assert_eq!(InvalidLength::NotFinite.message(), "length must be a finite number");
}
