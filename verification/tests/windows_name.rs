use everything_next::windows_name::validate_rename_input;
use everything_next::windows_name::{validate_windows_name, WindowsNameError};

#[test]
fn validates_windows_file_names() {
    for name in [
        "rapport final.pdf",
        "photo_été.png",
        "archive.tar.gz",
        "README",
    ] {
        assert_eq!(validate_windows_name(name), Ok(()), "{name}");
    }
}

#[test]
fn rejects_each_invalid_name_category() {
    assert_eq!(
        validate_windows_name(" fichier.txt"),
        Err(WindowsNameError::EmptyOrSurroundedByWhitespace)
    );
    assert_eq!(
        validate_windows_name("bad\u{1f}.txt"),
        Err(WindowsNameError::InvalidCharacter)
    );
    assert_eq!(
        validate_windows_name("con.txt"),
        Err(WindowsNameError::Reserved)
    );
    assert_eq!(
        validate_windows_name(&"a".repeat(256)),
        Err(WindowsNameError::TooLong)
    );
}

#[test]
fn accepts_normal_windows_names() {
    for name in [
        "rapport final.pdf",
        "photo_été.png",
        "archive.tar.gz",
        "README",
    ] {
        assert!(validate_windows_name(name).is_ok(), "{name}");
    }
}

#[test]
fn rejects_invalid_and_reserved_windows_names() {
    for name in [
        "",
        " fichier.txt",
        "fichier.txt ",
        "fichier.",
        "a/b",
        "a\\b",
        "a:b",
        "CON",
        "con.txt",
        "NUL.md",
        "COM1.log",
        "COM¹.txt",
        "LPT9",
        "LPT².log",
        "CONIN$",
        "CONOUT$.txt",
        "CLOCK$",
    ] {
        assert!(validate_windows_name(name).is_err(), "{name}");
    }
}

#[test]
fn name_limits_count_utf16_code_units() {
    assert_eq!(validate_windows_name(&"a".repeat(255)), Ok(()));
    assert_eq!(
        validate_windows_name(&"😀".repeat(128)),
        Err(WindowsNameError::TooLong)
    );
    assert_eq!(validate_windows_name(&"😀".repeat(127)), Ok(()));
    assert_eq!(validate_windows_name("COM0"), Ok(()));
    assert_eq!(validate_windows_name("COM10"), Ok(()));
    assert_eq!(validate_windows_name("con .txt"), Err(WindowsNameError::Reserved));
    assert_eq!(
        WindowsNameError::Reserved.message(),
        "This name is reserved by Windows."
    );
}

#[test]
fn the_french_rename_dialog_refuses_blank_and_forbidden_names() {
    assert_eq!(validate_rename_input("rapport.pdf"), Ok(()));
    assert_eq!(validate_rename_input("CON"), Ok(()));
    assert_eq!(
        validate_rename_input(" rapport.pdf"),
        Err("Le nom ne peut pas être vide ni commencer ou finir par un espace.".to_string())
    );
    assert_eq!(
        validate_rename_input("   "),
        Err("Le nom ne peut pas être vide ni commencer ou finir par un espace.".to_string())
    );
    assert_eq!(
        validate_rename_input("a?b"),
        Err("Ce nom contient un caractère interdit sous Windows.".to_string())
    );
    assert_eq!(
        validate_rename_input("fichier."),
        Err("Ce nom contient un caractère interdit sous Windows.".to_string())
    );
}
