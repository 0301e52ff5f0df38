//! What a new package starts with.

use vstd::prelude::*;
use crate::text::{chars_of, push_chars, push_text, replace_all, replaced, trim, trimmed};

verus! {

/// The configuration file of a new package, with a mark wherever the
/// package's own values go.
pub open spec fn template_text() -> Seq<char> {
    "[package]\nname = \"<name>\"\nversion = \"<version>\"\nauthors = [\"<author>\"]\nedition = \"<edition>\"\n\n[dependencies]\n"@
}

/// The configuration of a new package: the template with the marks
/// replaced, one after the other, by the name, the first version, the
/// author and the edition.
pub open spec fn template_for(name: Seq<char>, edition: Seq<char>, author: Seq<char>) -> Seq<char> {
    replaced(
        replaced(
            replaced(replaced(template_text(), "<name>"@, name), "<version>"@, "0.1.0"@),
            "<author>"@,
            author,
        ),
        "<edition>"@,
        edition,
    )
}

/// An author as `git` knows one: the name and, in angle brackets, the
/// address, each without the white space around it.
pub open spec fn author_text(username: Seq<char>, email: Seq<char>) -> Seq<char> {
    trim(username) + " <"@ + trim(email) + ">"@
}

/// The author from what `git` says of the user's name and address, where it
/// says both.
pub fn get_author_from_git(username: Option<&str>, email: Option<&str>) -> (r: Option<String>)
    ensures
        match (username, email) {
            (Some(u), Some(e)) => r matches Some(s) && s@ == author_text(u@, e@),
            _ => r.is_none(),
        },
{
    match (username, email) {
        (Some(u), Some(e)) => {
            let name = trimmed(&chars_of(u));
            let address = trimmed(&chars_of(e));
            let mut r = String::new();
            push_chars(&mut r, &name);
            push_text(&mut r, " <");
            push_chars(&mut r, &address);
            push_text(&mut r, ">");
            assert(r@ =~= author_text(u@, e@));
            Some(r)
        },
        _ => None,
    }
}

/// The configuration file of a new package named `name`, for the edition
/// `edition`, by `author`, or by the default author where none is known.
pub fn build_template(name: &str, edition: &str, author: Option<&str>) -> (r: String)
    ensures
        r@ == template_for(
            name@,
            edition@,
            match author {
                Some(a) => a@,
                None => "name <email@example.com>"@,
            },
        ),
{
    let template =
        "[package]\nname = \"<name>\"\nversion = \"<version>\"\nauthors = [\"<author>\"]\nedition = \"<edition>\"\n\n[dependencies]\n";
    let by = match author {
        Some(a) => a,
        None => "name <email@example.com>",
    };
    let a = replace_all(template, "<name>", name);
    let b = replace_all(a.as_str(), "<version>", "0.1.0");
    let c = replace_all(b.as_str(), "<author>", by);
    replace_all(c.as_str(), "<edition>", edition)
}

} // verus!
