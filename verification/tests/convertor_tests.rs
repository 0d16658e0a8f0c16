use toolkit::convertor::Convertor;
use toolkit::radix::ParseNumError;

#[test]
fn test_color() {
    let color = "#000000";
    if let Ok((r, g, b)) = Convertor::color_hex_to_rgb(color) {
        assert_eq!(r, 0);
        assert_eq!(g, 0);
        assert_eq!(b, 0);
    } else {
        assert!(false);
    }

    let hex = Convertor::color_rgb_to_hex((0, 0, 0));
    assert_eq!(hex, "#000000");

    let color2 = "#0000001";
    let result = Convertor::color_hex_to_rgb(color2);
    assert_eq!(result.err().unwrap(), "颜色转换异常");
}

#[test]
fn color_component_errors_are_named() {
    assert_eq!(
        Convertor::color_hex_to_rgb("#zz0000").err().unwrap(),
        "红色分量无效"
    );
    assert_eq!(
        Convertor::color_hex_to_rgb("#00zz00").err().unwrap(),
        "绿色分量无效"
    );
    assert_eq!(
        Convertor::color_hex_to_rgb("#0000zz").err().unwrap(),
        "蓝色分量无效"
    );
    assert_eq!(Convertor::color_rgb_to_hex((255, 171, 16)), "#FFAB10");
    if let Ok((r, g, b)) = Convertor::color_hex_to_rgb("#FFAB10") {
        assert_eq!((r, g, b), (255, 171, 16));
    } else {
        assert!(false);
    }
}

#[test]
fn test_base64() {
    let string = "hello world";
    let base64 = Convertor::bytes_to_base64(string.as_bytes());
    assert_eq!(base64, "aGVsbG8gd29ybGQ=");

    let string = Convertor::base64_to_bytes("aGVsbG8gd29ybGQ=");

    assert_eq!(string, "hello world");
}

#[test]
fn base64_rejects_garbage() {
    assert_eq!(Convertor::try_base64_to_bytes("@@@@"), None);
    assert_eq!(
        Convertor::try_base64_to_bytes("aGVsbG8gd29ybGQ="),
        Some(String::from("hello world"))
    );
}

#[test]
fn test_hex() {
    let hex = "aklj1";
    let string = Convertor::string_to_hex(hex);
    assert_eq!(string, "616b6c6a31".to_uppercase());

    let string1 = Convertor::hex_to_string(string.as_str()).unwrap();
    assert_eq!(string1, hex);

    let hex = "616b6c6a31";
    let decimal = Convertor::hex_to_decimal(hex).unwrap();
    assert_eq!(decimal, 418414094897);
    let hex1 = Convertor::decimal_to_hex(decimal);
    assert_eq!(hex1, hex.to_uppercase());

    let octal = Convertor::hex_to_octal(hex).unwrap();
    assert_eq!(octal, "6055333065061");
    let string2 = Convertor::octal_to_hex(octal.as_str()).unwrap();
    assert_eq!(string2, hex.to_uppercase());

    let binary = Convertor::hex_to_binary(hex).unwrap();
    assert_eq!(binary, "110000101101011011011000110101000110001");
    let string3 = Convertor::binary_to_hex(binary.as_str()).unwrap();
    assert_eq!(string3, hex.to_uppercase());
}

#[test]
fn numeral_errors_are_exact() {
    assert_eq!(Convertor::hex_to_decimal(""), Err(ParseNumError::Empty));
    assert_eq!(Convertor::hex_to_decimal("+"), Err(ParseNumError::Empty));
    assert_eq!(
        Convertor::hex_to_decimal("12g4"),
        Err(ParseNumError::InvalidDigit)
    );
    // One hexadecimal digit past the largest sixteen-digit value.
    assert_eq!(
        Convertor::hex_to_decimal("10000000000000000"),
        Err(ParseNumError::Overflow)
    );
    assert_eq!(Convertor::hex_to_decimal("+fF"), Ok(255));
    assert_eq!(Convertor::hex_to_decimal("FFFFFFFFFFFFFFFF"), Ok(u64::MAX));
    assert_eq!(
        Convertor::hex_to_string("6z").unwrap_err(),
        ParseNumError::InvalidDigit
    );
    assert_eq!(Convertor::decimal_to_hex(0), "0");
    assert_eq!(Convertor::hex_to_binary("0").unwrap(), "0");
}

#[test]
fn test_string_byte() {
    let s = "hello";
    let vec = Convertor::string_to_bytes(s);
    let bytes_vec: Vec<u8> = vec![104, 101, 108, 108, 111];

    assert_eq!(vec, bytes_vec);
    let string = Convertor::bytes_to_string(&[104, 101, 108, 108, 111]);
    assert_eq!(string, s);
}

#[test]
fn halfwidth_fullwidth() {
    let string = Convertor::halfwidth_to_fullwidth("Hello, World!");
    assert_eq!(string, "Ｈｅｌｌｏ，　Ｗｏｒｌｄ！");
    assert_eq!(
        Convertor::fullwidth_to_halfwidth("Ｈｅｌｌｏ，　Ｗｏｒｌｄ！"),
        "Hello, World!"
    );
}
