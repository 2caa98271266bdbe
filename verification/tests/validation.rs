use cmdparse::{Context, Flags, OptGroup, ParseError};

fn args(list: &[&str]) -> Vec<String> {
    list.iter().map(|s| s.to_string()).collect()
}

#[test]
fn test_check_validation_invalid1() {
    let mut ctx = Context::new("test [option] [argument]", args(&["test", "-i"]));
    let d_opt = ctx.add_option(None, Some('d'), None, Flags::defaults()).unwrap();
    assert!(ctx.validate().is_err());
    assert!(d_opt.check(&ctx) == false);
}

#[test]
fn test_check_validation_invalid2() {
    let mut ctx = Context::new("test [option] [argument]", args(&["test", "--long1"]));
    let d_opt = ctx.add_option(None, Some('d'), None, Flags::defaults()).unwrap();
    assert!(ctx.validate().is_err());
    assert!(d_opt.check(&ctx) == false);
}

#[test]
fn test_check_validation_invalid4() {
    let mut ctx = Context::new(
        "test [option] [argument]",
        args(&["test", "invalidarg", "--long1"]),
    );
    let d_opt = ctx.add_option(Some("long1"), Some('d'), None, Flags::defaults()).unwrap();
    assert!(ctx.validate().is_err());
    d_opt.check(&ctx);
}

#[test]
fn test_check_result_no_value_no_flags_valid() {
    let mut ctx = Context::new("test [option] [argument]", args(&["test", "-d", "--long1"]));
    let d_opt = ctx.add_option(None, Some('d'), None, Flags::defaults()).unwrap();
    let e_opt = ctx.add_option(None, Some('e'), None, Flags::defaults()).unwrap();
    let g_opt = ctx.add_option(Some("long1"), Some('g'), None, Flags::defaults()).unwrap();
    let h_opt = ctx.add_option(Some("long2"), Some('h'), None, Flags::defaults()).unwrap();
    assert!(ctx.validate().is_ok());
    assert!(d_opt.check(&ctx) == true);
    assert!(e_opt.check(&ctx) == false);
    assert!(g_opt.check(&ctx) == true);
    assert!(h_opt.check(&ctx) == false);
}

#[test]
fn test_check_result_no_value_no_flags_grouped() {
    let mut ctx = Context::new("test [option] [argument]", args(&["test", "-deg", "--long1"]));
    let d_opt = ctx.add_option(None, Some('d'), None, Flags::defaults()).unwrap();
    let e_opt = ctx.add_option(None, Some('e'), None, Flags::defaults()).unwrap();
    let f_opt = ctx.add_option(None, Some('f'), None, Flags::defaults()).unwrap();
    let g_opt = ctx.add_option(None, Some('g'), None, Flags::defaults()).unwrap();
    let h_opt = ctx.add_option(Some("long1"), Some('h'), None, Flags::defaults()).unwrap();
    let i_opt = ctx.add_option(Some("long2"), Some('i'), None, Flags::defaults()).unwrap();
    assert!(ctx.validate().is_ok());
    assert!(d_opt.check(&ctx) == true);
    assert!(e_opt.check(&ctx) == true);
    assert!(f_opt.check(&ctx) == false);
    assert!(g_opt.check(&ctx) == true);
    assert!(h_opt.check(&ctx) == true);
    assert!(i_opt.check(&ctx) == false);
}

#[test]
fn test_check_result_grouped_value_valid() {
    let mut ctx = Context::new(
        "test [option] [argument]",
        args(&["test", "-deg", "value", "--long1"]),
    );
    let d_opt = ctx.add_option(None, Some('d'), None, Flags::defaults()).unwrap();
    let e_opt = ctx.add_option(None, Some('e'), None, Flags::defaults()).unwrap();
    let f_opt = ctx.add_option(None, Some('f'), None, Flags::defaults()).unwrap();
    let g_opt = ctx.add_option(None, Some('g'), None, Flags::takes_arg()).unwrap();
    let h_opt = ctx.add_option(Some("long1"), Some('h'), None, Flags::defaults()).unwrap();
    let i_opt = ctx.add_option(Some("long2"), Some('i'), None, Flags::defaults()).unwrap();
    assert!(ctx.validate().is_ok());
    assert!(d_opt.check(&ctx) == true);
    assert!(e_opt.check(&ctx) == true);
    assert!(f_opt.check(&ctx) == false);
    assert!(h_opt.check(&ctx) == true);
    assert!(i_opt.check(&ctx) == false);
    match g_opt.take_value::<String>(&mut ctx) {
        Ok(Some(val)) => assert!(val == "value"),
        Ok(None) => assert!(false),
        Err(_) => assert!(false),
    }
}

#[test]
fn test_check_result_grouped_value_invalid() {
    let mut ctx = Context::new("test [option] [argument]", args(&["test", "-deg", "--long1"]));
    let d_opt = ctx.add_option(None, Some('d'), None, Flags::defaults()).unwrap();
    let e_opt = ctx.add_option(None, Some('e'), None, Flags::takes_optional_arg()).unwrap();
    let f_opt = ctx.add_option(None, Some('f'), None, Flags::defaults()).unwrap();
    let g_opt = ctx.add_option(None, Some('g'), None, Flags::defaults()).unwrap();
    let h_opt = ctx.add_option(Some("long1"), Some('h'), None, Flags::defaults()).unwrap();
    let i_opt = ctx.add_option(Some("long2"), Some('i'), None, Flags::defaults()).unwrap();
    assert!(ctx.validate().is_ok());
    assert!(d_opt.check(&ctx) == true);
    assert!(g_opt.check(&ctx) == true);
    assert!(f_opt.check(&ctx) == false);
    assert!(h_opt.check(&ctx) == true);
    assert!(i_opt.check(&ctx) == false);
    match e_opt.take_value::<String>(&mut ctx) {
        Ok(_) => assert!(false),
        Err(val) => assert!(val),
    }
}

#[test]
fn test_check_result_long_option_values() {
    let mut ctx = Context::new(
        "test [option] [argument]",
        args(&["test", "--long1=value1", "-d", "--long2", "value2"]),
    );
    let d_opt = ctx.add_option(None, Some('d'), None, Flags::defaults()).unwrap();
    let g_opt = ctx.add_option(Some("long1"), Some('g'), None, Flags::takes_arg()).unwrap();
    let e_opt = ctx.add_option(None, Some('e'), None, Flags::defaults()).unwrap();
    let h_opt = ctx.add_option(Some("long2"), Some('h'), None, Flags::takes_arg()).unwrap();
    assert!(ctx.validate().is_ok());
    assert!(d_opt.check(&ctx) == true);
    assert!(e_opt.check(&ctx) == false);
    match g_opt.take_value::<String>(&mut ctx) {
        Ok(Some(value)) => assert!(value == "value1"),
        _ => assert!(false),
    }
    match h_opt.take_value::<String>(&mut ctx) {
        Ok(Some(value)) => assert!(value == "value2"),
        _ => assert!(false),
    }
}

#[test]
fn test_check_validation_valid_argument1() {
    let mut ctx = Context::new(
        "test [option] [argument]",
        args(&["test", "--long1", "validarg1", "validarg2"]),
    );
    let d_opt = ctx.add_option(Some("long1"), Some('d'), None, Flags::defaults()).unwrap();
    assert!(ctx.validate().is_ok());
    let leftover = ctx.get_args();
    assert_eq!(leftover.len(), 2);
    assert!(leftover[0] == "validarg1");
    assert!(leftover[1] == "validarg2");
    assert!(d_opt.check(&ctx));
}

#[test]
fn test_check_validation_valid_argument2() {
    let mut ctx = Context::new(
        "test [option] [argument]",
        args(&["test", "--long1", "validarg1", "validarg2"]),
    );
    let d_opt = ctx.add_option(Some("long1"), Some('d'), None, Flags::takes_arg()).unwrap();
    assert!(ctx.validate().is_ok());
    {
        let leftover = ctx.get_args();
        assert_eq!(leftover.len(), 1);
        assert!(leftover[0] == "validarg2");
    }
    match d_opt.take_value::<String>(&mut ctx) {
        Ok(Some(val)) => assert!(val == "validarg1"),
        Ok(None) => assert!(false),
        Err(_) => assert!(false),
    }
}

#[test]
fn test_check_result_no_value_no_flags_multiple() {
    let mut ctx = Context::new(
        "test [option] [argument]",
        args(&["test", "-d", "--long1", "-d", "--long1"]),
    );
    let d_opt = ctx.add_option(None, Some('d'), None, Flags::defaults()).unwrap();
    let e_opt = ctx.add_option(None, Some('e'), None, Flags::defaults()).unwrap();
    let g_opt = ctx.add_option(Some("long1"), Some('g'), None, Flags::defaults()).unwrap();
    let h_opt = ctx.add_option(Some("long2"), Some('h'), None, Flags::defaults()).unwrap();
    let l3_opt = ctx.add_option(Some("long3"), None, None, Flags::defaults()).unwrap();
    assert!(ctx.validate().is_ok());
    assert!(d_opt.count(&ctx) == 2);
    assert!(e_opt.check(&ctx) == false);
    assert!(g_opt.count(&ctx) == 2);
    assert!(h_opt.check(&ctx) == false);
    assert!(l3_opt.count(&ctx) == 0);
}

#[test]
fn test_check_result_no_value_unique() {
    let mut ctx = Context::new(
        "test [option] [argument]",
        args(&["test", "-d", "--long3", "-d"]),
    );
    let d_opt = ctx.add_option(None, Some('d'), None, Flags::unique()).unwrap();
    let l3_opt = ctx.add_option(Some("long3"), None, None, Flags::defaults()).unwrap();
    assert!(ctx.validate().is_err());
    d_opt.count(&ctx);
    l3_opt.count(&ctx);
}

#[test]
fn test_check_result_no_value_unique2() {
    let mut ctx = Context::new(
        "test [option] [argument]",
        args(&["test", "-d", "--long3", "-d"]),
    );
    let d_opt = ctx.add_option(None, Some('d'), None, Flags::unique()).unwrap();
    let l3_opt = ctx.add_option(Some("long3"), None, None, Flags::takes_optional_arg()).unwrap();
    assert!(ctx.validate().is_err());
    d_opt.count(&ctx);
    l3_opt.count(&ctx);
}

#[test]
fn test_unique_twice_counts_attempts() {
    let mut ctx = Context::new("test [option]", args(&["test", "-d", "-d"]));
    let d_opt = ctx.add_option(None, Some('d'), None, Flags::unique()).unwrap();
    let err = ctx.validate().unwrap_err();
    assert_eq!(err, ParseError::DuplicateOption("d".to_string()));
    assert_eq!(d_opt.count(&ctx), 2);
}

#[test]
fn test_unknown_option_error() {
    let mut ctx = Context::new("test [option]", args(&["test", "-i"]));
    ctx.add_option(None, Some('d'), None, Flags::defaults()).unwrap();
    let err = ctx.validate().unwrap_err();
    assert_eq!(err, ParseError::UnknownOption("i".to_string()));
}

#[test]
fn test_missing_argument_error() {
    let mut ctx = Context::new("test [option]", args(&["test", "-i"]));
    ctx.add_option(None, Some('i'), None, Flags::takes_arg()).unwrap();
    let err = ctx.validate().unwrap_err();
    assert_eq!(err, ParseError::MissingArgument("i".to_string()));
}

#[test]
fn test_leftover_before_option_is_unexpected() {
    let mut ctx = Context::new("test [option]", args(&["test", "stray", "-d"]));
    ctx.add_option(None, Some('d'), None, Flags::defaults()).unwrap();
    let err = ctx.validate().unwrap_err();
    assert_eq!(err, ParseError::UnexpectedArgument("stray".to_string()));
}

#[test]
fn test_grouped_short_options_each_counted_once() {
    let mut ctx = Context::new("test [option]", args(&["test", "-abc"]));
    let a_opt = ctx.add_option(None, Some('a'), None, Flags::defaults()).unwrap();
    let b_opt = ctx.add_option(None, Some('b'), None, Flags::defaults()).unwrap();
    let c_opt = ctx.add_option(None, Some('c'), None, Flags::defaults()).unwrap();
    assert!(ctx.validate().is_ok());
    assert_eq!(a_opt.count(&ctx), 1);
    assert_eq!(b_opt.count(&ctx), 1);
    assert_eq!(c_opt.count(&ctx), 1);
    assert_eq!(ctx.get_args().len(), 0);
}

#[test]
fn test_long_inline_and_split_value_agree() {
    let mut ctx1 = Context::new("test [option]", args(&["test", "--opt=value"]));
    let o1 = ctx1.add_option(Some("opt"), None, None, Flags::takes_arg()).unwrap();
    assert!(ctx1.validate().is_ok());
    let mut ctx2 = Context::new("test [option]", args(&["test", "--opt", "value"]));
    let o2 = ctx2.add_option(Some("opt"), None, None, Flags::takes_arg()).unwrap();
    assert!(ctx2.validate().is_ok());
    let v1 = o1.take_values::<String>(&ctx1).unwrap();
    let v2 = o2.take_values::<String>(&ctx2).unwrap();
    assert_eq!(v1.len(), 1);
    assert_eq!(v2.len(), 1);
    assert_eq!(v1[0].as_ref().unwrap(), "value");
    assert_eq!(v2[0].as_ref().unwrap(), "value");
}

#[test]
fn test_inline_value_splits_at_first_equals() {
    let mut ctx = Context::new("test [option]", args(&["test", "--opt=a=b"]));
    let o = ctx.add_option(Some("opt"), None, None, Flags::takes_arg()).unwrap();
    assert!(ctx.validate().is_ok());
    match o.take_value::<String>(&mut ctx) {
        Ok(Some(v)) => assert_eq!(v, "a=b"),
        _ => assert!(false),
    }
}

#[test]
fn test_lone_dash_produces_no_token() {
    let mut ctx = Context::new("test [option]", args(&["test", "-"]));
    assert!(ctx.validate().is_ok());
    assert_eq!(ctx.get_args().len(), 0);
}
