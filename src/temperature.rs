use vstd::prelude::*;
use crate::lexer::push_char;

verus! {

/// The three temperature scales.
#[derive(Debug, Clone, Copy, PartialEq, Eq, Structural)]
pub enum Scale {
    Celsius,
    Fahrenheit,
    Kelvin,
}

/// The scale that a letter names, in either case.
pub open spec fn scale_of_letter(c: char) -> Option<Scale> {
    if c == 'c' || c == 'C' {
        Some(Scale::Celsius)
    } else if c == 'f' || c == 'F' {
        Some(Scale::Fahrenheit)
    } else if c == 'k' || c == 'K' {
        Some(Scale::Kelvin)
    } else {
        None
    }
}

fn letter_scale(c: char) -> (r: Option<Scale>)
    ensures
        r == scale_of_letter(c),
{
    if c == 'c' || c == 'C' {
        Some(Scale::Celsius)
    } else if c == 'f' || c == 'F' {
        Some(Scale::Fahrenheit)
    } else if c == 'k' || c == 'K' {
        Some(Scale::Kelvin)
    } else {
        None
    }
}

/// Splits a reading such as `76c` or `-12F` into the text of its number and
/// its scale. The last character names the scale, and at least one character
/// must stand before it; otherwise the reading is not understood.
pub fn split_reading(reading: &str) -> (r: Option<(String, Scale)>)
    ensures
        match r {
            Some((number, scale)) => {
                &&& reading@.len() >= 2
                &&& scale_of_letter(reading@.last()) == Some(scale)
                &&& number@ == reading@.drop_last()
            },
            None => reading@.len() < 2 || scale_of_letter(reading@.last()) is None,
        },
{
    let ghost text = reading@;
    let mut head = String::new();
    let mut last: Option<char> = None;
    let mut count: usize = 0;
    for ch in it: reading.chars()
        invariant
            it.seq() == text,
            count == if it.index() < 2 { it.index() } else { 2 },
            it.index() == 0 ==> last is None && head@.len() == 0,
            it.index() > 0 ==> last == Some(text[it.index() - 1]) && head@ == text.take(it.index() - 1),
    {
        if let Some(p) = last {
            proof {
                assert(text.take(it.index()) == text.take(it.index() - 1).push(p));
            }
            push_char(&mut head, p);
        }
        last = Some(ch);
        if count < 2 {
            count = count + 1;
        }
    }
    match last {
        Some(c) => {
            if count < 2 {
                None
            } else {
                match letter_scale(c) {
                    Some(scale) => {
                        assert(text.take(text.len() - 1) == text.drop_last());
                        Some((head, scale))
                    },
                    None => None,
                }
            }
        },
        None => None,
    }
}

/// The scale that a whole answer names: one letter, `c`, `f` or `k`.
pub open spec fn scale_named(answer: Seq<char>) -> Option<Scale> {
    if answer == seq!['c'] {
        Some(Scale::Celsius)
    } else if answer == seq!['f'] {
        Some(Scale::Fahrenheit)
    } else if answer == seq!['k'] {
        Some(Scale::Kelvin)
    } else {
        None
    }
}

/// Reads the answer to "which scale?": exactly one lower-case letter.
pub fn target_scale(answer: &str) -> (r: Option<Scale>)
    ensures
        r == scale_named(answer@),
{
    let ghost text = answer@;
    let mut first: Option<char> = None;
    let mut more = false;
    for ch in it: answer.chars()
        invariant
            it.seq() == text,
            it.index() == 0 ==> first is None,
            it.index() > 0 ==> first == Some(text[0]),
            more == (it.index() >= 2),
    {
        if first.is_none() {
            first = Some(ch);
        } else {
            more = true;
        }
    }
    match first {
        Some(c) => {
            if more {
                assert(text.len() >= 2);
                assert(text != seq!['c'] && text != seq!['f'] && text != seq!['k']);
                None
            } else {
                assert(text.len() == 1);
                assert(text == seq![c]);
                if c == 'c' {
                    Some(Scale::Celsius)
                } else if c == 'f' {
                    Some(Scale::Fahrenheit)
                } else if c == 'k' {
                    Some(Scale::Kelvin)
                } else {
                    assert(seq![c] != seq!['c'] && seq![c] != seq!['f'] && seq![c] != seq!['k']) by {
                        assert(seq![c][0] == c);
                        assert(seq!['c'][0] == 'c');
                        assert(seq!['f'][0] == 'f');
                        assert(seq!['k'][0] == 'k');
                    }
                    None
                }
            }
        },
        None => {
            assert(text.len() == 0);
            assert(text != seq!['c'] && text != seq!['f'] && text != seq!['k']);
            None
        },
    }
}

/// The six conversions between two different scales.
#[derive(Debug, Clone, Copy, PartialEq, Eq, Structural)]
pub enum Conversion {
    FahrenheitToCelsius,
    FahrenheitToKelvin,
    CelsiusToFahrenheit,
    CelsiusToKelvin,
    KelvinToFahrenheit,
    KelvinToCelsius,
}

/// The conversion from one scale to a requested one. There is none when no
/// scale was named or when it is the scale the reading is already in.
pub fn conversion(from: Scale, to: Option<Scale>) -> (r: Option<Conversion>)
    ensures
        r == match (from, to) {
            (Scale::Fahrenheit, Some(Scale::Celsius)) => Some(Conversion::FahrenheitToCelsius),
            (Scale::Fahrenheit, Some(Scale::Kelvin)) => Some(Conversion::FahrenheitToKelvin),
            (Scale::Celsius, Some(Scale::Fahrenheit)) => Some(Conversion::CelsiusToFahrenheit),
            (Scale::Celsius, Some(Scale::Kelvin)) => Some(Conversion::CelsiusToKelvin),
            (Scale::Kelvin, Some(Scale::Fahrenheit)) => Some(Conversion::KelvinToFahrenheit),
            (Scale::Kelvin, Some(Scale::Celsius)) => Some(Conversion::KelvinToCelsius),
            _ => None::<Conversion>,
        },
{
    match (from, to) {
        (Scale::Fahrenheit, Some(Scale::Celsius)) => Some(Conversion::FahrenheitToCelsius),
        (Scale::Fahrenheit, Some(Scale::Kelvin)) => Some(Conversion::FahrenheitToKelvin),
        (Scale::Celsius, Some(Scale::Fahrenheit)) => Some(Conversion::CelsiusToFahrenheit),
        (Scale::Celsius, Some(Scale::Kelvin)) => Some(Conversion::CelsiusToKelvin),
        (Scale::Kelvin, Some(Scale::Fahrenheit)) => Some(Conversion::KelvinToFahrenheit),
        (Scale::Kelvin, Some(Scale::Celsius)) => Some(Conversion::KelvinToCelsius),
        _ => None,
    }
}

} // verus!
