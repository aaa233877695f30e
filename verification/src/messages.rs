//! What the server tells the user.
use vstd::prelude::*;

verus! {

/// A number from 0 to 9 as a character.
pub open spec fn digit(n: int) -> char {
    ((n as u8) + 48) as char
}

/// A number in decimal digits.
pub open spec fn decimal(n: nat) -> Seq<char>
    decreases n,
{
    if n < 10 {
        seq![digit(n as int)]
    } else {
        decimal(n / 10).push(digit((n % 10) as int))
    }
}

/// Appends a number in decimal digits.
fn push_decimal(text: &mut String, n: u128)
    ensures
        final(text)@ == old(text)@ + decimal(n as nat),
    decreases n,
{
    if n >= 10 {
        push_decimal(text, n / 10);
    }
    text.push(((n % 10) as u8 + 48) as char);
    assert(text@ =~= old(text)@ + decimal(n as nat));
}

/// The text that says what a first scan found.
pub open spec fn start_text(files: nat, resources: nat, millis: nat, natives: nat) -> Seq<char> {
    "indexed "@ + decimal(files) + " files in "@ + decimal(resources) + " resources in "@ + decimal(
        millis,
    ) + " ms ("@ + decimal(natives) + " natives available)"@
}

/// Says what a first scan found.
pub fn start_message(files: usize, resources: usize, millis: u128, natives: usize) -> (text: String)
    ensures
        text@ == start_text(files as nat, resources as nat, millis as nat, natives as nat),
{
    let mut text = "indexed ".to_owned();
    push_decimal(&mut text, files as u128);
    let mut text = text.concat(" files in ");
    push_decimal(&mut text, resources as u128);
    let mut text = text.concat(" resources in ");
    push_decimal(&mut text, millis);
    let mut text = text.concat(" ms (");
    push_decimal(&mut text, natives as u128);
    text.concat(" natives available)")
}

/// Says that a request or an update failed half-way.
pub fn recovery_message() -> (text: String)
    ensures
        text@
            == "recovered from an internal error; please report it with the file that triggered it"@,
{
    "recovered from an internal error; please report it with the file that triggered it".to_owned()
}

} // verus!
