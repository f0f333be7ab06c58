use vstd::prelude::*;
use rand::Rng;

verus! {

/// The entries of the main menu.
#[derive(Debug, Clone, Copy, PartialEq, Eq, Structural)]
pub enum MenuItem {
    NumberGame,
    Calculator,
    CoolCalculator,
    EvenCoolerCalculator,
    TemperatureConverter,
    Exit,
}

/// The main-menu entry that a number selects, if any.
pub fn menu_item(choice: i32) -> (r: Option<MenuItem>)
    ensures
        r == match choice {
            1 => Some(MenuItem::NumberGame),
            2 => Some(MenuItem::Calculator),
            3 => Some(MenuItem::CoolCalculator),
            4 => Some(MenuItem::EvenCoolerCalculator),
            5 => Some(MenuItem::TemperatureConverter),
            6 => Some(MenuItem::Exit),
            _ => None::<MenuItem>,
        },
{
    match choice {
        1 => Some(MenuItem::NumberGame),
        2 => Some(MenuItem::Calculator),
        3 => Some(MenuItem::CoolCalculator),
        4 => Some(MenuItem::EvenCoolerCalculator),
        5 => Some(MenuItem::TemperatureConverter),
        6 => Some(MenuItem::Exit),
        _ => None,
    }
}

/// The commands of the two-operand calculator.
#[derive(Debug, Clone, Copy, PartialEq, Eq, Structural)]
pub enum CalcCommand {
    Add,
    Subtract,
    Multiply,
    Divide,
    Quit,
}

/// The calculator command that a number selects, if any.
pub fn calc_command(command: i32) -> (r: Option<CalcCommand>)
    ensures
        r == match command {
            1 => Some(CalcCommand::Add),
            2 => Some(CalcCommand::Subtract),
            3 => Some(CalcCommand::Multiply),
            4 => Some(CalcCommand::Divide),
            5 => Some(CalcCommand::Quit),
            _ => None::<CalcCommand>,
        },
{
    match command {
        1 => Some(CalcCommand::Add),
        2 => Some(CalcCommand::Subtract),
        3 => Some(CalcCommand::Multiply),
        4 => Some(CalcCommand::Divide),
        5 => Some(CalcCommand::Quit),
        _ => None,
    }
}

/// What a guess in the number game amounts to.
#[derive(Debug, Clone, Copy, PartialEq, Eq, Structural)]
pub enum GuessOutcome {
    /// Zero leaves the game.
    Quit,
    Correct,
    Wrong,
}

/// Judges a guess against the secret number.
pub fn judge_guess(guess: i32, secret: i32) -> (r: GuessOutcome)
    ensures
        r == if guess == 0 {
            GuessOutcome::Quit
        } else if guess == secret {
            GuessOutcome::Correct
        } else {
            GuessOutcome::Wrong
        },
{
    if guess == 0 {
        GuessOutcome::Quit
    } else if guess == secret {
        GuessOutcome::Correct
    } else {
        GuessOutcome::Wrong
    }
}

/// Relies on `rand::thread_rng` and `Rng::gen_range`: a value drawn from
/// `lo..=hi`, which must not be empty.
#[verifier::external_body]
fn random_in(lo: i32, hi: i32) -> (r: i32)
    requires
        lo <= hi,
    ensures
        lo <= r <= hi,
{
    rand::thread_rng().gen_range(lo..=hi)
}

pub const SECRET_MIN: i32 = 1;

pub const SECRET_MAX: i32 = 10;

/// Draws the secret number of a round of the number game.
pub fn draw_secret() -> (r: i32)
    ensures
        SECRET_MIN <= r <= SECRET_MAX,
{
    random_in(SECRET_MIN, SECRET_MAX)
}

} // verus!
