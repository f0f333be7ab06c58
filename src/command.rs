use vstd::prelude::*;

verus! {

/// The lower-case form of a text, as `str::to_lowercase` gives it.
pub uninterp spec fn lower_of(s: Seq<char>) -> Seq<char>;

/// Relies on `str::to_lowercase`: the result depends on the characters alone.
#[verifier::external_body]
fn lowercase(s: &str) -> (r: String)
    ensures
        r@ == lower_of(s@),
{
    s.to_lowercase()
}

/// A line typed at one of the interactive prompts.
#[derive(Debug, PartialEq)]
pub enum Command {
    /// The word `exit`, in any case.
    Exit,
    /// Anything else, in lower case.
    Text(String),
}

/// The word that leaves a prompt.
pub open spec fn exit_word() -> Seq<char> {
    seq!['e', 'x', 'i', 't']
}

/// Reads a line typed at a prompt: `exit` in any case leaves, anything else
/// is handed on in lower case.
pub fn read_command(line: &str) -> (r: Command)
    ensures
        match r {
            Command::Exit => lower_of(line@) == exit_word(),
            Command::Text(t) => lower_of(line@) != exit_word() && t@ == lower_of(line@),
        },
{
    let lower = lowercase(line);
    let word = "exit".to_owned();
    proof {
        reveal_strlit("exit");
    }
    assert(word@ == exit_word());
    if lower == word {
        Command::Exit
    } else {
        Command::Text(lower)
    }
}

} // verus!
