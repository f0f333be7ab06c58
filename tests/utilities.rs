use rust_fun::arith::divi;
use rust_fun::command::{read_command, Command};
use rust_fun::input::parse_int;
use rust_fun::menu::{calc_command, draw_secret, judge_guess, menu_item, CalcCommand, GuessOutcome, MenuItem};
use rust_fun::simple::{simple_expression, SimpleError, SimpleOp};
use rust_fun::temperature::{conversion, split_reading, target_scale, Conversion, Scale};

#[test]
fn quotient_to_three_decimals() {
    assert_eq!(divi(10, 4), Some((2, 500)));
    assert_eq!(divi(1, 3), Some((0, 333)));
    assert_eq!(divi(7, 7), Some((1, 0)));
    assert_eq!(divi(5, 0), None);
    assert_eq!(divi(-5, 0), None);
    assert_eq!(divi(0, 9), Some((0, 0)));
    assert_eq!(divi(5, -1), Some((0, 0)));
}

#[test]
fn integers_are_read_whole() {
    assert_eq!(parse_int("42"), Ok(42));
    assert_eq!(parse_int("-7"), Ok(-7));
    assert_eq!(parse_int("+3"), Ok(3));
    assert_eq!(parse_int("2147483647"), Ok(i32::MAX));
    assert_eq!(parse_int("-2147483648"), Ok(i32::MIN));
    assert!(parse_int("2147483648").is_err());
    assert!(parse_int("").is_err());
    assert!(parse_int("-").is_err());
    assert!(parse_int("1a").is_err());
    assert!(parse_int(" 5").is_err());
}

#[test]
fn menu_numbers_select_entries() {
    assert_eq!(menu_item(1), Some(MenuItem::NumberGame));
    assert_eq!(menu_item(4), Some(MenuItem::EvenCoolerCalculator));
    assert_eq!(menu_item(6), Some(MenuItem::Exit));
    assert_eq!(menu_item(0), None);
    assert_eq!(menu_item(7), None);
    assert_eq!(calc_command(1), Some(CalcCommand::Add));
    assert_eq!(calc_command(4), Some(CalcCommand::Divide));
    assert_eq!(calc_command(5), Some(CalcCommand::Quit));
    assert_eq!(calc_command(-1), None);
}

#[test]
fn guesses_are_judged() {
    assert_eq!(judge_guess(0, 4), GuessOutcome::Quit);
    assert_eq!(judge_guess(4, 4), GuessOutcome::Correct);
    assert_eq!(judge_guess(3, 4), GuessOutcome::Wrong);
    for _ in 0..200 {
        let n = draw_secret();
        assert!((1..=10).contains(&n));
    }
}

#[test]
fn exit_word_in_any_case_leaves() {
    assert_eq!(read_command("exit"), Command::Exit);
    assert_eq!(read_command("EXIT"), Command::Exit);
    assert_eq!(read_command("ExIt"), Command::Exit);
    assert_eq!(read_command("7*8+5"), Command::Text("7*8+5".to_string()));
    assert_eq!(read_command("76C"), Command::Text("76c".to_string()));
    assert_eq!(read_command("exits"), Command::Text("exits".to_string()));
}

#[test]
fn readings_split_into_number_and_scale() {
    assert_eq!(split_reading("76c"), Some(("76".to_string(), Scale::Celsius)));
    assert_eq!(split_reading("-12F"), Some(("-12".to_string(), Scale::Fahrenheit)));
    assert_eq!(split_reading("100k"), Some(("100".to_string(), Scale::Kelvin)));
    assert_eq!(split_reading("c"), None);
    assert_eq!(split_reading("76x"), None);
    assert_eq!(split_reading(""), None);
}

#[test]
fn target_scale_is_one_letter() {
    assert_eq!(target_scale("c"), Some(Scale::Celsius));
    assert_eq!(target_scale("f"), Some(Scale::Fahrenheit));
    assert_eq!(target_scale("k"), Some(Scale::Kelvin));
    assert_eq!(target_scale("x"), None);
    assert_eq!(target_scale("cc"), None);
    assert_eq!(target_scale(""), None);
}

#[test]
fn one_operator_expressions() {
    assert_eq!(simple_expression("7*8"), Ok((SimpleOp::Multiply, 7, 8)));
    assert_eq!(simple_expression("5-3"), Ok((SimpleOp::Subtract, 5, 3)));
    assert_eq!(simple_expression("8/2"), Ok((SimpleOp::Divide, 8, 2)));
    assert_eq!(simple_expression("-5+3"), Ok((SimpleOp::Add, -5, 3)));
    assert_eq!(simple_expression("2+3+4"), Ok((SimpleOp::Add, 2, 3)));
    assert_eq!(simple_expression("2*3-4"), Err(SimpleError::BadOperand("2*3".parse::<i32>().unwrap_err())));
    assert!(matches!(simple_expression("-5-3"), Err(SimpleError::BadOperand(_))));
    assert!(matches!(simple_expression("7*x"), Err(SimpleError::BadOperand(_))));
    assert_eq!(simple_expression("abc"), Err(SimpleError::NoOperator));
}

#[test]
fn conversions_need_two_different_scales() {
    assert_eq!(conversion(Scale::Fahrenheit, Some(Scale::Celsius)), Some(Conversion::FahrenheitToCelsius));
    assert_eq!(conversion(Scale::Fahrenheit, Some(Scale::Kelvin)), Some(Conversion::FahrenheitToKelvin));
    assert_eq!(conversion(Scale::Celsius, Some(Scale::Fahrenheit)), Some(Conversion::CelsiusToFahrenheit));
    assert_eq!(conversion(Scale::Celsius, Some(Scale::Kelvin)), Some(Conversion::CelsiusToKelvin));
    assert_eq!(conversion(Scale::Kelvin, Some(Scale::Fahrenheit)), Some(Conversion::KelvinToFahrenheit));
    assert_eq!(conversion(Scale::Kelvin, Some(Scale::Celsius)), Some(Conversion::KelvinToCelsius));
    assert_eq!(conversion(Scale::Celsius, Some(Scale::Celsius)), None);
    assert_eq!(conversion(Scale::Kelvin, None), None);
}
