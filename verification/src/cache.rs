//! The write cache: what a stage needs to decide whether its work is still
//! good, so that nothing is computed or written twice.

use vstd::prelude::*;
use vstd::utf8::{encode_utf8, valid_utf8};
use crate::text::text_of;

verus! {

/// Whether what a stage depends on has changed in this run.
#[must_use]
#[derive(Debug, Clone, Copy, PartialEq, Eq)]
pub enum FileDep {
    Unchanged,
    Touched,
}

/// Why a file's content is no text.
#[derive(Debug, Clone, Copy, PartialEq, Eq)]
pub enum LoadError {
    /// The bytes are not UTF-8.
    NotUtf8,
}

impl LoadError {
    /// What the error says.
    pub open spec fn message_text(self) -> Seq<char> {
        "content is not UTF-8"@
    }

    /// What the error says.
    pub fn message(&self) -> (r: String)
        ensures
            r@ == self.message_text(),
    {
        text_of("content is not UTF-8")
    }
}

/// The error of `String::from_utf8`, `std::string::FromUtf8Error`: carried
/// from the call to where it is told apart from success, and not looked into.
#[verifier::external_type_specification]
#[verifier::external_body]
pub struct ExFromUtf8Error(std::string::FromUtf8Error);

/// Reads bytes as text: `String::from_utf8`.
///
/// It gives a string exactly for the byte sequences that are valid UTF-8,
/// and the bytes of that string are the ones given.
#[verifier::external_body]
fn string_from_utf8(bytes: Vec<u8>) -> (r: Result<String, std::string::FromUtf8Error>)
    ensures
        match r {
            Ok(s) => valid_utf8(bytes@) && encode_utf8(s@) == bytes@,
            Err(_) => !valid_utf8(bytes@),
        },
{
    String::from_utf8(bytes)
}

/// The token after a condition has been looked at: as it was where the
/// condition holds, and `Touched` where it does not.
pub open spec fn checked(dep: FileDep, ok: bool) -> FileDep {
    if ok {
        dep
    } else {
        FileDep::Touched
    }
}

/// What comparing new content with a file's gives: `Unchanged` where the
/// file is there and holds exactly that content.
pub open spec fn compared(existing: Option<Seq<u8>>, content: Seq<u8>) -> FileDep {
    if existing == Some(content) {
        FileDep::Unchanged
    } else {
        FileDep::Touched
    }
}

/// What a file holds after new content was compared with it and written
/// where the two differ.
pub open spec fn written(existing: Option<Seq<u8>>, content: Seq<u8>) -> Option<Seq<u8>> {
    match compared(existing, content) {
        FileDep::Unchanged => existing,
        FileDep::Touched => Some(content),
    }
}

/// Writing the same content a second time changes nothing: whatever the file
/// held, after the first write it holds the content, and the second write
/// finds it unchanged and leaves it so.
pub proof fn law_second_write_is_unchanged(existing: Option<Seq<u8>>, content: Seq<u8>)
    ensures
        written(existing, content) == Some(content),
        compared(written(existing, content), content) == FileDep::Unchanged,
        written(written(existing, content), content) == Some(content),
        existing.is_none() ==> compared(existing, content) == FileDep::Touched,
{
}

impl FileDep {
    /// The token after a condition has been looked at.
    pub fn check(self, check: bool) -> (r: FileDep)
        ensures
            r == checked(self, check),
    {
        if check {
            self
        } else {
            FileDep::Touched
        }
    }

    /// The token for a stage whose output is `present` or not: a stage with
    /// no output has to run, whatever its input.
    pub fn if_exists(self, present: bool) -> (r: FileDep)
        ensures
            r == checked(self, present),
    {
        self.check(present)
    }

    /// Runs a stage with a cached output, or skips it. `present` tells
    /// whether the output is there.
    ///
    /// Where the token is `Unchanged` and the output exists, the output is
    /// loaded and nothing else is done. Otherwise the stage computes its
    /// output and writes it, and the token becomes what the write gave. On
    /// an error the token stays as it was.
    pub fn exists_and_write<E, F, W, L>(
        &mut self,
        present: bool,
        compute: F,
        write: W,
        load: L,
    ) -> (r: Result<Vec<u8>, E>) where
        F: FnOnce() -> Result<Vec<u8>, E>,
        W: FnOnce(&Vec<u8>) -> Result<FileDep, E>,
        L: FnOnce() -> Result<Vec<u8>, E>,

        requires
            compute.requires(()),
            load.requires(()),
            forall|content: &Vec<u8>| write.requires((content,)),
        ensures
            match checked(*old(self), present) {
                FileDep::Unchanged => load.ensures((), r) && *final(self) == *old(self),
                FileDep::Touched => match r {
                    Ok(content) => compute.ensures((), Ok(content)) && write.ensures(
                        (&content,),
                        Ok(*final(self)),
                    ),
                    Err(e) => *final(self) == *old(self) && (compute.ensures((), Err(e)) || exists|
                        content: Vec<u8>,
                    |
                        compute.ensures((), Ok(content)) && write.ensures((&content,), Err(e))),
                },
            },
    {
        match self.if_exists(present) {
            FileDep::Touched => {
                let content = match compute() {
                    Ok(c) => c,
                    Err(e) => {
                        return Err(e);
                    },
                };
                match write(&content) {
                    Ok(dep) => {
                        *self = dep;
                        Ok(content)
                    },
                    Err(e) => Err(e),
                }
            },
            FileDep::Unchanged => load(),
        }
    }

    /// Runs `f` where the token is `Touched`, and takes the token that it
    /// gives. An `Unchanged` token stays, and `f` is not run. The token is
    /// handed back for the next stage.
    pub fn with<E, F: FnOnce() -> Result<FileDep, E>>(&mut self, f: F) -> (r: Result<
        &mut FileDep,
        E,
    >)
        requires
            *old(self) == FileDep::Touched ==> f.requires(()),
        ensures
            match *old(self) {
                FileDep::Unchanged => r matches Ok(token) && *token == FileDep::Unchanged
                    && *final(self) == *final(token),
                FileDep::Touched => match r {
                    Ok(token) => f.ensures((), Ok(*token)) && *final(self) == *final(token),
                    Err(e) => f.ensures((), Err(e)) && *final(self) == FileDep::Touched,
                },
            },
    {
        match *self {
            FileDep::Touched => match f() {
                Ok(dep) => {
                    *self = dep;
                    Ok(self)
                },
                Err(e) => Err(e),
            },
            FileDep::Unchanged => Ok(self),
        }
    }

    /// Lets go of the token.
    pub fn drop(self) {
    }
}

/// Whether two byte vectors hold the same bytes.
fn same_bytes(a: &Vec<u8>, b: &Vec<u8>) -> (r: bool)
    ensures
        r == (a@ == b@),
{
    if a.len() != b.len() {
        return false;
    }
    let mut i: usize = 0;
    while i < a.len()
        invariant
            i <= a.len() == b.len(),
            a@.take(i as int) == b@.take(i as int),
        decreases a.len() - i,
    {
        if a[i] != b[i] {
            return false;
        }
        assert(a@.take(i + 1) == a@.take(i as int).push(a@[i as int]));
        assert(b@.take(i + 1) == b@.take(i as int).push(b@[i as int]));
        i += 1;
    }
    assert(a@.take(a.len() as int) == a@);
    assert(b@.take(b.len() as int) == b@);
    true
}

/// The bytes of a file that may be missing, as a mathematical value.
pub open spec fn opt_bytes(file: Option<&Vec<u8>>) -> Option<Seq<u8>> {
    match file {
        Some(bytes) => Some(bytes@),
        None => None,
    }
}

/// Brings a file to hold `content`. `existing` is what the file holds, if
/// it is there, and `write` puts new content in its place.
///
/// Where the file holds exactly `content` already, nothing is written and
/// the result is `Unchanged`. Otherwise `content` is handed to `write`, and
/// the result is `Touched` once that has succeeded.
pub fn compare_and_write<E, W: FnOnce(&Vec<u8>) -> Result<(), E>>(
    existing: Option<&Vec<u8>>,
    content: &Vec<u8>,
    write: W,
) -> (r: Result<FileDep, E>)
    requires
        write.requires((content,)),
    ensures
        match compared(opt_bytes(existing), content@) {
            FileDep::Unchanged => r == Ok::<FileDep, E>(FileDep::Unchanged),
            FileDep::Touched => match r {
                Ok(dep) => dep == FileDep::Touched && write.ensures((content,), Ok(())),
                Err(e) => write.ensures((content,), Err(e)),
            },
        },
{
    let same = match existing {
        Some(old) => same_bytes(old, content),
        None => false,
    };
    if same {
        Ok(FileDep::Unchanged)
    } else {
        match write(content) {
            Ok(done) => {
                assert(done == ());
                Ok(FileDep::Touched)
            },
            Err(e) => Err(e),
        }
    }
}

/// The text of a file from its bytes, if the file is there.
pub fn load_content(raw: Option<Vec<u8>>) -> (r: Result<Option<String>, LoadError>)
    ensures
        match raw {
            None => r == Ok::<Option<String>, LoadError>(None),
            Some(bytes) => if valid_utf8(bytes@) {
                r matches Ok(Some(s)) && encode_utf8(s@) == bytes@
            } else {
                r == Err::<Option<String>, LoadError>(LoadError::NotUtf8)
            },
        },
{
    match raw {
        None => Ok(None),
        Some(bytes) => match string_from_utf8(bytes) {
            Ok(s) => Ok(Some(s)),
            Err(_) => Err(LoadError::NotUtf8),
        },
    }
}

} // verus!
