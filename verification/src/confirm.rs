//! Confirmation of destructive operations.

use vstd::prelude::*;
use vstd::string::*;
use crate::error::Error;
use crate::text::{chars_of, joined, same_text, trim, trimmed};

verus! {

/// The lower case of an ASCII letter; any other character is itself.
pub open spec fn lower(c: char) -> char {
    if 'A' <= c <= 'Z' {
        (c as u32 + 32) as char
    } else {
        c
    }
}

/// Whether a line that the user typed says yes: `y` or `yes`, in any case, with
/// any whitespace around it.
pub open spec fn says_yes(line: Seq<char>) -> bool {
    let word = trimmed(line).map_values(|c: char| lower(c));
    word == "y"@ || word == "yes"@
}

/// Reads the answer of the user.
pub fn prompt(line: &str) -> (yes: bool)
    ensures
        yes == says_yes(line@),
{
    let word = trim(line);
    let chars = chars_of(word.as_str());
    let mut small = String::new();
    let ghost lowered = trimmed(line@).map_values(|c: char| lower(c));
    let mut i: usize = 0;
    while i < chars.len()
        invariant
            chars@ == trimmed(line@),
            lowered == trimmed(line@).map_values(|c: char| lower(c)),
            i <= chars@.len(),
            small@ == lowered.take(i as int),
        decreases chars@.len() - i,
    {
        let c = chars[i];
        if 'A' <= c && c <= 'Z' {
            let b: u8 = c as u8;
            small.push((b + 32) as char);
        } else {
            small.push(c);
        }
        assert(small@ =~= lowered.take(i + 1));
        i = i + 1;
    }
    assert(lowered.take(lowered.len() as int) =~= lowered);
    same_text(small.as_str(), "y") || same_text(small.as_str(), "yes")
}

/// The question put to the user.
pub fn question(message: &str) -> (s: String)
    ensures
        s@ == message@ + " [y/N] "@,
{
    joined(message, " [y/N] ")
}

/// What is printed where the user has confirmed everything beforehand.
pub fn auto_confirmed(message: &str) -> (s: String)
    ensures
        s@ == "[auto-confirmed] "@ + message@,
{
    joined("[auto-confirmed] ", message)
}

/// Requires confirmation: given beforehand, or by the line that the user typed.
pub fn require(skip: bool, line: Option<&str>) -> (checked: Result<(), Error>)
    ensures
        match checked {
            Ok(_) => skip || (line matches Some(l) && says_yes(l@)),
            Err(e) => e == Error::Cancelled && !skip && (line matches Some(l) ==> !says_yes(l@)),
        },
{
    if skip {
        return Ok(());
    }
    match line {
        Some(l) => if prompt(l) {
            Ok(())
        } else {
            Err(Error::Cancelled)
        },
        None => Err(Error::Cancelled),
    }
}

/// The answers that confirm are `y` and `yes`, each letter in either case, with any
/// whitespace around them; everything else declines.
pub proof fn law_only_yes_confirms(line: Seq<char>)
    ensures
        ({
            let word = trimmed(line);
            says_yes(line) <==> {
                ||| word.len() == 1 && (word[0] == 'y' || word[0] == 'Y')
                ||| {
                    &&& word.len() == 3
                    &&& word[0] == 'y' || word[0] == 'Y'
                    &&& word[1] == 'e' || word[1] == 'E'
                    &&& word[2] == 's' || word[2] == 'S'
                }
            }
        }),
{
    reveal_strlit("y");
    reveal_strlit("yes");
    let word = trimmed(line);
    let small = word.map_values(|c: char| lower(c));
    assert("y"@.len() == 1 && "y"@[0] == 'y');
    assert("yes"@.len() == 3 && "yes"@[0] == 'y' && "yes"@[1] == 'e' && "yes"@[2] == 's');
    if word.len() == 1 {
        assert(small[0] == lower(word[0]));
        if lower(word[0]) == 'y' {
            assert(small =~= "y"@);
        }
    }
    if word.len() == 3 {
        assert(small[0] == lower(word[0]) && small[1] == lower(word[1]) && small[2] == lower(
            word[2],
        ));
        if lower(word[0]) == 'y' && lower(word[1]) == 'e' && lower(word[2]) == 's' {
            assert(small =~= "yes"@);
        }
    }
}

} // verus!
