use everything_next::theme::{preferred_theme, Theme};

#[test]
fn themes_are_stored_by_name_and_read_back() {
    for theme in [Theme::Light, Theme::Dark] {
        assert_eq!(Theme::from_stored(theme.as_str()), Some(theme));
    }
    assert_eq!(Theme::Light.as_str(), "light");
    assert_eq!(Theme::Dark.as_str(), "dark");
    assert_eq!(Theme::from_stored("Dark"), None);
    assert_eq!(Theme::from_stored("system"), None);
}

#[test]
fn the_system_preference_applies_when_nothing_is_stored() {
    assert_eq!(preferred_theme(true), Theme::Dark);
    assert_eq!(preferred_theme(false), Theme::Light);
}
