use toolkit::date::DateTimeFormat;
use toolkit::desensitized::Desensitized;
use toolkit::id_card_util::IdCardUtil;
use toolkit::random_util::RandomUtil;
use toolkit::secure::SecureUtil;

#[test]
fn test_desensitize() {
    let result1 = Desensitized::desensitize("hello world", 2, 3);
    assert_eq!(result1, "he******rld");

    let result2 = Desensitized::desensitize("example123", 0, 4);
    assert_eq!(result2, "******e123");

    let result3 = Desensitized::desensitize("confidential", 5, 5);
    assert_eq!(result3, "confi**ntial");
}

#[test]
fn desensitize_edges() {
    assert_eq!(Desensitized::desensitize("", 0, 0), "");
    assert_eq!(Desensitized::desensitize("ab", 0, 0), "**");
    assert_eq!(Desensitized::desensitize("ab", 5, 0), "ab");
    assert_eq!(Desensitized::desensitize("ab", 1, 1), "ab");
}

#[test]
fn test_extract_id_card_info() {
    let id_card = "150526200001010797";

    let result = IdCardUtil::extract_id_card_info(id_card);

    assert!(result.is_some());
    let id_card_info = result.unwrap();
    assert_eq!(id_card_info.gender, "男");
}

#[test]
fn id_card_rejects_bad_dates_and_shapes() {
    // The thirty-first of February is no date.
    assert!(IdCardUtil::extract_id_card_info_at("150526200002310797", 2024).is_none());
    // The twenty-ninth of February exists in leap years alone.
    assert!(IdCardUtil::extract_id_card_info_at("150526200102290797", 2024).is_none());
    let leap = IdCardUtil::extract_id_card_info_at("15052620000229079X", 2024).unwrap();
    assert_eq!(leap.birthday.year, 2000);
    assert_eq!(leap.birthday.month, 2);
    assert_eq!(leap.birthday.day, 29);
    assert_eq!(leap.age, 24);
    assert_eq!(leap.gender, "女");
    // Too short, and a stray letter.
    assert!(IdCardUtil::extract_id_card_info_at("12345", 2024).is_none());
    assert!(IdCardUtil::extract_id_card_info_at("15052620000101079a", 2024).is_none());
}

#[test]
fn test_random_int() {
    let random_int = RandomUtil::random_int(1, 100);
    assert!(random_int >= 1 && random_int <= 100);
}

#[test]
fn test_random_bool() {
    let random_bool = RandomUtil::random_bool();
    assert!(random_bool == true || random_bool == false);
}

#[test]
fn test_random_char() {
    let random_char = RandomUtil::random_char();
    assert!((b'a'..=b'z').contains(&(random_char as u8)));
}

#[test]
fn test_random_string() {
    let random_string = RandomUtil::random_string(10);
    assert_eq!(random_string.len(), 10);
}

#[test]
fn random_string_is_alphanumeric() {
    let s = RandomUtil::random_string(64);
    assert_eq!(s.chars().count(), 64);
    assert!(s.chars().all(|c| c.is_ascii_alphanumeric()));
}

#[test]
fn test_md5() {
    let input = "Hello, World!";
    let expected_output = "65a8e27d8879283831b664bd8b7f0ad4";
    assert_eq!(SecureUtil::md5(input), expected_output);
}

#[test]
fn test_sha1() {
    let input = "Hello, World!";
    let expected_output = "0a0a9f2a6772942557ab5355d76af442f8f65e01";
    assert_eq!(SecureUtil::sha1(input), expected_output);
}

#[test]
fn format_patterns() {
    assert_eq!(DateTimeFormat::YmdHMS.to_str(), "%Y-%m-%d %H:%M:%S");
    assert_eq!(DateTimeFormat::Ymd.to_str(), "%Y-%m-%d");
    assert_eq!(DateTimeFormat::MdSlash.to_str(), "%m/%d");
    assert_eq!(DateTimeFormat::MS.to_str(), "%m:%S");
}
