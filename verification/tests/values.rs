use cmdparse::{Context, Flags, OptGroup, OptValue};

fn args(list: &[&str]) -> Vec<String> {
    list.iter().map(|s| s.to_string()).collect()
}

#[test]
fn test_check_result_single_value_valid_int() {
    let mut ctx = Context::new("test [option] [argument]", args(&["test", "-i", "33"]));
    let e_opt = ctx.add_option(None, Some('i'), None, Flags::takes_arg()).unwrap();
    assert!(ctx.validate().is_ok());
    let e_val: i64 = match e_opt.take_value(&mut ctx) {
        Ok(Some(value)) => value,
        Ok(None) => {
            assert!(false);
            0
        },
        Err(_) => {
            assert!(false);
            0
        },
    };
    assert!(e_val == 33);
}

#[test]
fn test_check_result_single_value_valid_bool() {
    let mut ctx = Context::new("test [option] [argument]", args(&["test", "-b", "true"]));
    let e_opt = ctx.add_option(None, Some('b'), None, Flags::takes_arg()).unwrap();
    assert!(ctx.validate().is_ok());
    let e_val: bool = match e_opt.take_value(&mut ctx) {
        Ok(Some(value)) => value,
        Ok(None) => {
            assert!(false);
            false
        },
        Err(_) => {
            assert!(false);
            false
        },
    };
    assert!(e_val == true);
}

#[test]
fn test_check_result_single_value_valid_str() {
    let mut ctx = Context::new("test [option] [argument]", args(&["test", "-s", "value"]));
    let e_opt = ctx.add_option(None, Some('s'), None, Flags::takes_arg()).unwrap();
    assert!(ctx.validate().is_ok());
    let e_val: String = match e_opt.take_value(&mut ctx) {
        Ok(Some(value)) => value,
        Ok(None) => {
            assert!(false);
            "error".to_string()
        },
        Err(_) => {
            assert!(false);
            "error".to_string()
        },
    };
    assert!(e_val == "value");
}

#[test]
fn test_check_result_take_value_multiple_str() {
    let mut ctx = Context::new(
        "test [option] [argument]",
        args(&["test", "-s", "value", "-s", "value2"]),
    );
    let e_opt = ctx.add_option(None, Some('s'), None, Flags::takes_arg()).unwrap();
    assert!(ctx.validate().is_ok());
    let e_val: String = match e_opt.take_value(&mut ctx) {
        Ok(Some(value)) => value,
        _ => {
            assert!(false);
            "error".to_string()
        },
    };
    let e_val2: String = match e_opt.take_value(&mut ctx) {
        Ok(Some(value)) => value,
        _ => {
            assert!(false);
            "error".to_string()
        },
    };
    assert!(e_val == "value2");
    assert!(e_val2 == "value");
}

#[test]
fn test_check_result_single_value_valid_float() {
    let mut ctx = Context::new("test [option] [argument]", args(&["test", "-f", "1.5"]));
    let e_opt = ctx.add_option(None, Some('f'), None, Flags::takes_arg()).unwrap();
    assert!(ctx.validate().is_ok());
    let e_val: f32 = match e_opt.take_value::<String>(&mut ctx) {
        Ok(Some(value)) => value.parse::<f32>().unwrap(),
        _ => {
            assert!(false);
            0f32
        },
    };
    assert!(e_val == 1.5);
}

#[test]
fn test_check_result_single_value_valid_bool2() {
    let mut ctx = Context::new("test [option] [argument]", args(&["test", "-b", "true"]));
    let e_opt = ctx.add_option(None, Some('b'), None, Flags::takes_arg()).unwrap();
    assert!(ctx.validate().is_ok());
    let e_val = e_opt.value_or(&ctx, false);
    assert!(e_val == true);
}

#[test]
fn test_check_result_single_value_invalid_bool3() {
    let mut ctx = Context::new("test [option] [argument]", args(&["test", "-c", "true"]));
    let e_opt = ctx.add_option(None, Some('b'), None, Flags::takes_arg()).unwrap();
    ctx.add_option(None, Some('c'), None, Flags::takes_arg()).unwrap();
    assert!(ctx.validate().is_ok());
    let e_val = e_opt.value_or(&ctx, false);
    assert!(e_val == false);
}

#[test]
fn test_check_result_single_value_invalid_bool4() {
    let mut ctx = Context::new("test [option] [argument]", args(&["test", "-c", "-d", "33"]));
    let c_opt = ctx.add_option(None, Some('c'), None, Flags::takes_optional_arg()).unwrap();
    let d_opt = ctx.add_option(None, Some('d'), None, Flags::takes_optional_arg()).unwrap();
    assert!(ctx.validate().is_ok());
    let c_val = c_opt.value_or(&ctx, 35i64);
    let d_val = d_opt.value_or::<i64>(&ctx, 35);
    assert!(c_val == 35);
    assert!(d_val == 33);
}

#[test]
fn test_check_result_single_value_invalid_int() {
    let mut ctx = Context::new("test [option] [argument]", args(&["test", "-i", "invalid"]));
    let e_opt = ctx.add_option(None, Some('i'), None, Flags::takes_arg()).unwrap();
    assert!(ctx.validate().is_ok());
    let e_val: i64 = match e_opt.take_value(&mut ctx) {
        Ok(Some(value)) => {
            assert!(false);
            value
        },
        Ok(None) => 0,
        Err(_) => {
            assert!(false);
            0
        },
    };
    assert!(e_val == 0);
}

#[test]
fn test_check_result_single_value_invalid_bool() {
    let mut ctx = Context::new("test [option] [argument]", args(&["test", "-b", "invalid"]));
    let e_opt = ctx.add_option(None, Some('b'), None, Flags::takes_arg()).unwrap();
    assert!(ctx.validate().is_ok());
    let e_val: bool = match e_opt.take_value(&mut ctx) {
        Ok(Some(value)) => {
            assert!(false);
            value
        },
        Ok(None) => false,
        Err(_) => {
            assert!(false);
            false
        },
    };
    assert!(e_val == false);
}

#[test]
fn test_check_result_single_value_invalid_float() {
    let mut ctx = Context::new("test [option] [argument]", args(&["test", "-f", "invalid"]));
    let e_opt = ctx.add_option(None, Some('f'), None, Flags::takes_arg()).unwrap();
    assert!(ctx.validate().is_ok());
    match e_opt.take_value::<String>(&mut ctx) {
        Ok(Some(value)) => assert!(value.parse::<f32>().is_err()),
        Ok(None) => assert!(false),
        Err(_) => assert!(false),
    }
}

#[test]
fn test_check_result_single_value_unpassed1() {
    let mut ctx = Context::new("test [option] [argument]", args(&["test", "-s", "-a"]));
    let e_opt = ctx.add_option(None, Some('s'), None, Flags::takes_optional_arg()).unwrap();
    let a_opt = ctx.add_option(None, Some('a'), None, Flags::defaults()).unwrap();
    assert!(ctx.validate().is_ok());
    let e_val: i64 = match e_opt.take_value(&mut ctx) {
        Ok(Some(value)) => {
            assert!(false);
            value
        },
        Ok(None) => {
            assert!(false);
            0
        },
        Err(passed) => {
            assert!(passed);
            0
        },
    };
    assert!(e_val == 0);
    a_opt.check(&ctx);
}

#[test]
fn test_check_result_single_value_unpassed2() {
    let mut ctx = Context::new("test [option] [argument]", args(&["test", "-a"]));
    let e_opt = ctx.add_option(None, Some('s'), None, Flags::takes_optional_arg()).unwrap();
    let a_opt = ctx.add_option(None, Some('a'), None, Flags::defaults()).unwrap();
    assert!(ctx.validate().is_ok());
    let e_val: i64 = match e_opt.take_value(&mut ctx) {
        Ok(Some(value)) => {
            assert!(false);
            value
        },
        Ok(None) => {
            assert!(false);
            0
        },
        Err(passed) => {
            assert!(!passed);
            0
        },
    };
    assert!(e_val == 0);
    a_opt.check(&ctx);
}

#[test]
fn test_check_result_single_value_before_validate() {
    let mut ctx = Context::new("test [option] [argument]", args(&["test", "-a", "value"]));
    let a_opt = ctx.add_option(None, Some('a'), None, Flags::takes_arg()).unwrap();
    match a_opt.take_value::<String>(&mut ctx) {
        Ok(Some(_)) => assert!(false),
        Ok(None) => assert!(false),
        Err(passed) => assert!(!passed),
    }
    assert!(ctx.validate().is_ok());
}

#[test]
fn test_check_result_multiple_values_int() {
    let mut ctx = Context::new(
        "test [option] [argument]",
        args(&["test", "-i", "33", "-i", "32", "--int=31", "--int", "30"]),
    );
    let e_opt = ctx.add_option(Some("int"), Some('i'), None, Flags::takes_arg()).unwrap();
    assert!(ctx.validate().is_ok());
    match e_opt.take_values::<i64>(&ctx) {
        Ok(values) => {
            let expected = vec![33i64, 32, 31, 30];
            assert_eq!(values.len(), expected.len());
            for (val, want) in values.iter().zip(expected.iter()) {
                assert!(val.unwrap() == *want);
            }
        },
        Err(_) => assert!(false),
    }
}

#[test]
fn test_check_result_multiple_values_int_invalid() {
    let mut ctx = Context::new(
        "test [option] [argument]",
        args(&["test", "-i", "33", "-i", "notanint", "--int=31", "--int", "30"]),
    );
    let e_opt = ctx.add_option(Some("int"), Some('i'), None, Flags::takes_arg()).unwrap();
    assert!(ctx.validate().is_ok());
    match e_opt.take_values::<i64>(&ctx) {
        Ok(values) => {
            let parsed: Vec<i64> = values.into_iter().flatten().collect();
            assert_eq!(parsed, vec![33i64, 31, 30]);
        },
        Err(_) => assert!(false),
    }
}

#[test]
fn test_check_result_multiple_values_some() {
    let mut ctx = Context::new(
        "test [option] [argument]",
        args(&["test", "-i", "33", "-i", "--int=31", "--int", "30"]),
    );
    let e_opt = ctx.add_option(Some("int"), Some('i'), None, Flags::takes_optional_arg()).unwrap();
    assert!(ctx.validate().is_ok());
    match e_opt.take_values::<i64>(&ctx) {
        Ok(values) => {
            let expected = vec![33i64, 31, 30];
            assert_eq!(values.len(), expected.len());
            for (val, want) in values.iter().zip(expected.iter()) {
                assert!(val.unwrap() == *want);
            }
        },
        Err(_) => assert!(false),
    }
}

#[test]
fn test_check_result_multiple_values_none() {
    let mut ctx = Context::new("test [option] [argument]", args(&["test"]));
    let e_opt = ctx.add_option(Some("int"), Some('i'), None, Flags::takes_optional_arg()).unwrap();
    assert!(ctx.validate().is_ok());
    match e_opt.take_values::<i64>(&ctx) {
        Ok(_) => assert!(false),
        Err(nb) => assert!(nb == 0),
    }
}

#[test]
fn test_check_result_multiple_values_unpassed() {
    let mut ctx = Context::new("test [option] [argument]", args(&["test", "-i", "--int"]));
    let e_opt = ctx.add_option(Some("int"), Some('i'), None, Flags::takes_optional_arg()).unwrap();
    assert!(ctx.validate().is_ok());
    match e_opt.take_values::<i64>(&ctx) {
        Ok(_) => assert!(false),
        Err(nb) => assert!(nb == 2),
    }
}

#[test]
fn test_mandatory_values_round_trip_in_order() {
    let mut ctx = Context::new(
        "test [option]",
        args(&["test", "-o", "first", "-o", "second", "-o", "third"]),
    );
    let o = ctx.add_option(None, Some('o'), None, Flags::takes_arg()).unwrap();
    assert!(ctx.validate().is_ok());
    assert_eq!(o.count(&ctx), 3);
    let values = o.take_values::<String>(&ctx).unwrap();
    let got: Vec<String> = values.into_iter().flatten().collect();
    assert_eq!(got, vec!["first".to_string(), "second".to_string(), "third".to_string()]);
}

#[test]
fn test_int_parsing_edges() {
    assert_eq!(<i64 as OptValue>::parse_opt("-9223372036854775808"), Some(i64::MIN));
    assert_eq!(<i64 as OptValue>::parse_opt("9223372036854775807"), Some(i64::MAX));
    assert_eq!(<i64 as OptValue>::parse_opt("9223372036854775808"), None);
    assert_eq!(<i64 as OptValue>::parse_opt("-9223372036854775809"), None);
    assert_eq!(<i64 as OptValue>::parse_opt("+5"), Some(5));
    assert_eq!(<i64 as OptValue>::parse_opt("33x"), None);
    assert_eq!(<i64 as OptValue>::parse_opt(""), None);
    assert_eq!(<i64 as OptValue>::parse_opt("-"), None);
    assert_eq!(<i64 as OptValue>::parse_opt("007"), Some(7));
}

#[test]
fn test_bool_parsing_edges() {
    let mut ctx = Context::new(
        "test [option]",
        args(&["test", "-b", "true", "-b", "false", "-b", "TRUE"]),
    );
    let b_opt = ctx.add_option(None, Some('b'), None, Flags::takes_arg()).unwrap();
    assert!(ctx.validate().is_ok());
    let values = b_opt.take_values::<bool>(&ctx).unwrap();
    assert_eq!(values, vec![Some(true), Some(false), None]);
}

#[test]
fn test_short_flag_token_text() {
    let tok = cmdparse::RawArg::Short('x');
    assert!(tok.option());
    assert_eq!(tok.value(), "x");
    let bare = cmdparse::RawArg::Neither("plain".to_string());
    assert!(!bare.option());
    assert_eq!(bare.value(), "plain");
}

#[test]
fn test_error_message_text() {
    let err = cmdparse::ParseError::UnknownOption("i".to_string());
    assert_eq!(err.message(), "Invalid option : i");
}
