use xerg::colors::Color;

#[test]
fn test_color_to_code_red() {
    let color = Color::Red;
    assert_eq!(color.to_code(), "31");
}

#[test]
fn test_color_to_code_green() {
    let color: Color = Color::Green;
    assert_eq!(color.to_code(), "32");
}

#[test]
fn test_color_to_code_blue() {
    let color: Color = Color::Blue;
    assert_eq!(color.to_code(), "34");
}

#[test]
fn test_color_to_code_bold() {
    let color: Color = Color::Bold;
    assert_eq!(color.to_code(), "1");
}

#[test]
fn test_from_str_valid_colors() {
    let colors_list = vec![
        ("red", Color::Red),
        ("green", Color::Green),
        ("blue", Color::Blue),
        ("bold", Color::Bold),
    ];
    for (color_str, _expected_color) in colors_list {
        let color = Color::from_string(color_str);
        assert!(color.is_some());
    }
}

#[test]
fn test_from_str_invalid_color() {
    let color = Color::from_string("invalid");
    assert!(color.is_none());
}

#[test]
fn test_from_str_case_insensitive() {
    let color_cases = vec![("RED", Color::Red), ("Red", Color::Red), ("rEd", Color::Red)];
    for (color_str, _expected_color) in color_cases {
        let color = Color::from_string(color_str);
        assert!(color.is_some());
    }
}

#[test]
fn test_from_str_empty_string() {
    let color = Color::from_string("");
    assert!(color.is_none());
}

#[test]
fn test_all_colors_have_codes() {
    let colors = vec![Color::Red, Color::Green, Color::Blue, Color::Bold];
    for color in colors {
        let code = color.to_code();
        assert!(!code.is_empty());
    }
}

#[test]
fn test_from_str_exact_values() {
    assert_eq!(Color::from_string("red"), Some(Color::Red));
    assert_eq!(Color::from_string("GREEN"), Some(Color::Green));
    assert_eq!(Color::from_string("Blue"), Some(Color::Blue));
    assert_eq!(Color::from_string("bOLd"), Some(Color::Bold));
    assert_eq!(Color::from_string("reds"), None);
    assert_eq!(Color::from_string("re"), None);
}

#[test]
fn test_to_code_bytes_matches_code() {
    for color in vec![Color::Red, Color::Green, Color::Blue, Color::Bold] {
        assert_eq!(color.to_code_bytes(), color.to_code().as_bytes().to_vec());
    }
}
