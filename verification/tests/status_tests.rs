use spog::status::ProductCveStatus::{self, Fixed, FirstFixed, FirstAffected, KnownAffected, LastAffected, KnownNotAffected, Recommended, UnderInvestigation};
use spog::status::StatusColor;

#[test]
fn precedence_follows_the_fixed_order() {
    let order = [
        Fixed,
        FirstFixed,
        KnownNotAffected,
        Recommended,
        LastAffected,
        KnownAffected,
        FirstAffected,
        UnderInvestigation,
    ];
    for pair in order.windows(2) {
        assert!(
            pair[0].stronger_than(&pair[1]),
            "{:?} must beat {:?}",
            pair[0],
            pair[1]
        );
        assert!(!pair[1].stronger_than(&pair[0]));
    }
    assert!(!Fixed.stronger_than(&Fixed));
    assert_eq!(Fixed.precedence(), 7);
    assert_eq!(UnderInvestigation.precedence(), 0);
}

#[test]
fn labels_match_the_display_text() {
    assert_eq!(Fixed.label(), "Fixed");
    assert_eq!(FirstFixed.label(), "First fixed");
    assert_eq!(FirstAffected.label(), "First Affected");
    assert_eq!(KnownAffected.label(), "Known affected");
    assert_eq!(LastAffected.label(), "Last affected");
    assert_eq!(KnownNotAffected.label(), "Knwon not affected");
    assert_eq!(Recommended.label(), "Recommended");
    assert_eq!(UnderInvestigation.label(), "Under investigation");
}

#[test]
fn colors_group_the_statuses() {
    assert_eq!(Fixed.color(), StatusColor::Green);
    assert_eq!(FirstFixed.color(), StatusColor::Green);
    assert_eq!(FirstAffected.color(), StatusColor::Red);
    assert_eq!(KnownAffected.color(), StatusColor::Red);
    assert_eq!(LastAffected.color(), StatusColor::Red);
    assert_eq!(KnownNotAffected.color(), StatusColor::Blue);
    assert_eq!(Recommended.color(), StatusColor::Orange);
    assert_eq!(UnderInvestigation.color(), StatusColor::Grey);
}
