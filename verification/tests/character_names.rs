use open_dialog::character::{Character, CharacterForm, ImageField};

#[test]
fn a_plain_name_is_valid() {
    assert!(Character::validate_name("Alice").is_ok());
    assert!(Character::validate_name("Jean-Luc Picard").is_ok());
    assert!(Character::validate_name("a.b").is_ok());
}

#[test]
fn an_empty_name_is_rejected() {
    assert!(Character::validate_name("").is_err());
}

#[test]
fn an_all_whitespace_name_is_rejected() {
    assert!(Character::validate_name("   ").is_err());
}

#[test]
fn leading_or_trailing_whitespace_is_rejected() {
    assert!(Character::validate_name(" Alice").is_err());
    assert!(Character::validate_name("Alice ").is_err());
    assert!(Character::validate_name("Alice\u{00A0}").is_err());
}

#[test]
fn path_separators_are_rejected() {
    assert!(Character::validate_name("a/b").is_err());
    assert!(Character::validate_name("a\\b").is_err());
}

#[test]
fn path_traversal_dots_are_rejected() {
    assert!(Character::validate_name(".").is_err());
    assert!(Character::validate_name("..").is_err());
    assert!(Character::validate_name("a..b").is_err());
}

#[test]
fn reserved_characters_are_rejected() {
    for bad in ["a<b", "a>b", "a:b", "a\"b", "a|b", "a?b", "a*b"] {
        assert!(Character::validate_name(bad).is_err(), "{}", bad);
    }
}

#[test]
fn control_characters_are_rejected() {
    assert!(Character::validate_name("a\u{0}b").is_err());
    assert!(Character::validate_name("a\u{1F}b").is_err());
    assert!(Character::validate_name("a\u{9B}b").is_err());
}

#[test]
fn the_byte_length_limit_is_two_hundred() {
    let ok = "a".repeat(200);
    let too_long = "a".repeat(201);
    assert!(Character::validate_name(&ok).is_ok());
    assert!(Character::validate_name(&too_long).is_err());
    // Multi-byte characters count by their UTF-8 length: 67 euro signs are
    // 201 bytes, 66 are 198.
    let euros_ok = "\u{20AC}".repeat(66);
    let euros_long = "\u{20AC}".repeat(67);
    assert!(Character::validate_name(&euros_ok).is_ok());
    assert!(Character::validate_name(&euros_long).is_err());
}

#[test]
fn a_new_character_starts_with_only_a_name() {
    let c = Character::new("Alice").unwrap();
    assert_eq!(c.display_name, "Alice".to_string());
    assert_eq!(c.first_name, None);
    assert_eq!(c.last_name, None);
    assert_eq!(c.description, None);
    assert_eq!(c.description_link, None);
    assert_eq!(c.portrait_link, None);
    assert_eq!(c.artwork_link, None);
    assert_eq!(c.background_link, None);
}

#[test]
fn a_character_with_an_invalid_name_is_not_created() {
    assert!(Character::new("a/b").is_err());
}

#[test]
fn change_from_form_replaces_only_the_editable_fields() {
    let mut c = Character::new("Alice").unwrap();
    c.set_description("about alice");
    let form = CharacterForm {
        id: "ignored".to_string(),
        display_name: "Alicia".to_string(),
        first_name: Some("Alicia".to_string()),
        last_name: Some("Stone".to_string()),
        description: None,
    };
    let id_before = *c.get_id();
    c.change_from_form(&form);
    assert_eq!(c.display_name, "Alicia".to_string());
    assert_eq!(c.first_name, Some("Alicia".to_string()));
    assert_eq!(c.last_name, Some("Stone".to_string()));
    assert_eq!(c.description, Some("about alice".to_string()));
    assert_eq!(*c.get_id(), id_before);
}

#[test]
fn image_links_land_in_the_right_slot() {
    let mut c = Character::new("Alice").unwrap();
    c.set_image_link(ImageField::Portrait, "p.png".to_string());
    c.set_image_link(ImageField::Artwork, "a.png".to_string());
    c.set_image_link(ImageField::Background, "b.png".to_string());
    assert_eq!(c.portrait_link, Some("p.png".to_string()));
    assert_eq!(c.artwork_link, Some("a.png".to_string()));
    assert_eq!(c.background_link, Some("b.png".to_string()));
}

#[test]
fn description_links_are_recorded() {
    let mut c = Character::new("Alice").unwrap();
    assert_eq!(c.get_description_link(), None);
    c.set_description_link(55);
    assert_eq!(c.get_description_link(), Some(55));
    assert_eq!(c.get_name(), "Alice");
}
