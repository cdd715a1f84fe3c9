use thyme::color::Color;
use thyme::error::{Channel, ParseError};

#[test]
fn short_and_long_white_are_equal() {
    assert_eq!(Color::parse("#fff"), Ok(Color { r: 255, g: 255, b: 255 }));
    assert_eq!(Color::parse("#ffffff"), Ok(Color { r: 255, g: 255, b: 255 }));
    assert_eq!(Color::parse("#fff"), Color::parse("#ffffff"));
}

#[test]
fn short_black() {
    assert_eq!(Color::parse("#000"), Ok(Color::black()));
    assert_eq!(Color::parse("#000"), Ok(Color { r: 0, g: 0, b: 0 }));
}

#[test]
fn five_digit_code_is_a_length_error() {
    assert_eq!(Color::parse("#12345"), Err(ParseError::BadLength));
}

#[test]
fn other_lengths_are_length_errors() {
    assert_eq!(Color::parse("#"), Err(ParseError::BadLength));
    assert_eq!(Color::parse("#1"), Err(ParseError::BadLength));
    assert_eq!(Color::parse("#12"), Err(ParseError::BadLength));
    assert_eq!(Color::parse("#1234"), Err(ParseError::BadLength));
    assert_eq!(Color::parse("#1234567"), Err(ParseError::BadLength));
}

#[test]
fn short_code_doubles_each_digit() {
    assert_eq!(Color::parse("#1a9"), Ok(Color { r: 0x11, g: 0xaa, b: 0x99 }));
    assert_eq!(Color::parse("#1a9"), Color::parse("#11aa99"));
    assert_eq!(Color::parse("#f08"), Ok(Color { r: 255, g: 0, b: 136 }));
}

#[test]
fn long_code_reads_two_digits_per_component() {
    assert_eq!(Color::parse("#FFAA00"), Ok(Color { r: 255, g: 170, b: 0 }));
    assert_eq!(Color::parse("#0a1B2c"), Ok(Color { r: 10, g: 27, b: 44 }));
    assert_eq!(Color::parse("#102030"), Ok(Color { r: 16, g: 32, b: 48 }));
}

#[test]
fn characters_that_are_no_hex_digits_are_refused() {
    assert_eq!(Color::parse("#ggg"), Err(ParseError::BadHex(Channel::Red)));
    assert_eq!(Color::parse("#12345z"), Err(ParseError::BadHex(Channel::Blue)));
    assert_eq!(Color::parse("#+f+f+f"), Err(ParseError::BadHex(Channel::Red)));
    assert_eq!(Color::parse("# ff"), Err(ParseError::BadHex(Channel::Red)));
    assert_eq!(Color::parse("#-12"), Err(ParseError::BadHex(Channel::Red)));
    assert_eq!(Color::parse("#1x3"), Err(ParseError::BadHex(Channel::Green)));
    assert_eq!(Color::parse("#12g"), Err(ParseError::BadHex(Channel::Blue)));
    assert_eq!(Color::parse("#ff0g00"), Err(ParseError::BadHex(Channel::Green)));
    assert_eq!(Color::parse("#ffgg0g"), Err(ParseError::BadHex(Channel::Green)));
}

#[test]
fn characters_outside_ascii_are_refused_early() {
    assert_eq!(Color::parse("#\u{e9}12"), Err(ParseError::BadLength));
    assert_eq!(Color::parse("#\u{e9}\u{e9}\u{e9}\u{e9}\u{e9}\u{e9}"), Err(ParseError::BadLength));
    assert_eq!(Color::parse("#ff\u{20ac}"), Err(ParseError::BadLength));
}

#[test]
fn named_colors() {
    assert_eq!(Color::parse("white"), Ok(Color { r: 255, g: 255, b: 255 }));
    assert_eq!(Color::parse("black"), Ok(Color { r: 0, g: 0, b: 0 }));
    assert_eq!(Color::parse("red"), Ok(Color { r: 255, g: 0, b: 0 }));
    assert_eq!(Color::parse("green"), Ok(Color { r: 0, g: 255, b: 255 }));
    assert_eq!(Color::parse("blue"), Ok(Color { r: 0, g: 0, b: 255 }));
    assert_eq!(Color::parse("cyan"), Ok(Color { r: 0, g: 255, b: 255 }));
    assert_eq!(Color::parse("yellow"), Ok(Color { r: 255, g: 255, b: 0 }));
    assert_eq!(Color::parse("magenta"), Ok(Color { r: 255, g: 255, b: 255 }));
}

#[test]
fn named_color_constructors() {
    assert_eq!(Color::white(), Color { r: 255, g: 255, b: 255 });
    assert_eq!(Color::black(), Color { r: 0, g: 0, b: 0 });
    assert_eq!(Color::red(), Color { r: 255, g: 0, b: 0 });
    assert_eq!(Color::green(), Color { r: 0, g: 255, b: 255 });
    assert_eq!(Color::blue(), Color { r: 0, g: 0, b: 255 });
    assert_eq!(Color::cyan(), Color { r: 0, g: 255, b: 255 });
    assert_eq!(Color::yellow(), Color { r: 255, g: 255, b: 0 });
    assert_eq!(Color::magenta(), Color { r: 255, g: 255, b: 255 });
    assert_eq!(Color::default(), Color::white());
}

#[test]
fn unknown_names_are_refused() {
    assert_eq!(Color::parse(""), Err(ParseError::UnknownColor));
    assert_eq!(Color::parse("White"), Err(ParseError::UnknownColor));
    assert_eq!(Color::parse("purple"), Err(ParseError::UnknownColor));
    assert_eq!(Color::parse("fff"), Err(ParseError::UnknownColor));
    assert_eq!(Color::parse(" red"), Err(ParseError::UnknownColor));
    assert_eq!(Color::parse("redd"), Err(ParseError::UnknownColor));
}

#[test]
fn text_of_a_color_pads_no_component() {
    assert_eq!(Color { r: 255, g: 255, b: 255 }.to_text(), "#ffffff");
    assert_eq!(Color { r: 0, g: 0, b: 0 }.to_text(), "#000");
    assert_eq!(Color { r: 10, g: 0, b: 171 }.to_text(), "#a0ab");
    assert_eq!(Color { r: 16, g: 32, b: 48 }.to_text(), "#102030");
    assert_eq!(Color { r: 15, g: 16, b: 254 }.to_text(), "#f10fe");
}

#[test]
fn text_of_a_color_with_two_digit_components_reads_back() {
    let color = Color { r: 18, g: 171, b: 240 };
    assert_eq!(color.to_text(), "#12abf0");
    assert_eq!(Color::parse(&color.to_text()), Ok(color));
}
