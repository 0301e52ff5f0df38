//! The names and defaults that the tool is built with.

use vstd::prelude::*;
use crate::text::{chars_of, push_char, push_text, text_of};

verus! {

/// The name of the tool.
pub const NAME: &'static str = "carsier";

/// The registry that a package belongs to where it names none.
pub const REGISTRY: &'static str = "crates";

/// The Scala version that new packages are made for.
pub const SCALA_VERSION: &'static str = "2.13";

/// The edition of a new package.
pub fn scala_edition() -> (r: String)
    ensures
        r@ == "2.13"@,
{
    text_of(SCALA_VERSION)
}

/// The author of a new package where none is known.
pub fn default_author() -> (r: String)
    ensures
        r@ == "name <email@example.com>"@,
{
    text_of("name <email@example.com>")
}

/// A lower-case letter of the basic alphabet as a capital; any other
/// character as it is.
pub open spec fn capital(c: char) -> char {
    if 'a' <= c <= 'z' {
        ((c as u8) - 32) as char
    } else {
        c
    }
}

/// A text with its first character as a capital.
pub open spec fn capitalized(s: Seq<char>) -> Seq<char> {
    if s.len() == 0 {
        s
    } else {
        seq![capital(s[0])] + s.drop_first()
    }
}

/// Decides `capital`.
fn to_capital(c: char) -> (r: char)
    ensures
        r == capital(c),
{
    if 'a' <= c && c <= 'z' {
        ((c as u8) - 32) as char
    } else {
        c
    }
}

/// The name of a package's configuration file: the tool's name with a
/// capital, and `.toml`.
pub fn toml_name() -> (r: String)
    ensures
        r@ == capitalized("carsier"@) + ".toml"@,
        r@ == "Carsier.toml"@,
{
    let name = chars_of(NAME);
    let mut r = String::new();
    let mut i: usize = 0;
    while i < name.len()
        invariant
            i <= name.len(),
            name@ == "carsier"@,
            r@ == capitalized(name@.take(i as int)),
        decreases name.len() - i,
    {
        let c = if i == 0 {
            to_capital(name[i])
        } else {
            name[i]
        };
        push_char(&mut r, c);
        assert(r@ =~= capitalized(name@.take(i + 1)));
        i += 1;
    }
    assert(name@.take(name.len() as int) == name@);
    push_text(&mut r, ".toml");
    proof {
        reveal_strlit("carsier");
        reveal_strlit(".toml");
        reveal_strlit("Carsier.toml");
        assert(r@ =~= "Carsier.toml"@);
    }
    r
}

/// The directory that the tool writes into.
pub fn target_dir() -> (r: String)
    ensures
        r@ == "target"@,
{
    text_of("target")
}

/// The registry of a package that names none.
pub fn default_registry() -> (r: String)
    ensures
        r@ == "crates"@,
{
    text_of(REGISTRY)
}

} // verus!
