//! Version requirements, as `semver_parser` reads them, and the version
//! that is handed to the resolver for one.

use vstd::prelude::*;
use crate::text::{push_decimal, push_text, same_text, decimal};

verus! {

/// How a predicate compares versions.
#[derive(Debug, Clone, Copy, PartialEq, Eq)]
pub enum Op {
    /// Exactly the version, `=`.
    Ex,
    /// Greater, `>`.
    Gt,
    /// At least, `>=`.
    GtEq,
    /// Less, `<`.
    Lt,
    /// At most, `<=`.
    LtEq,
    /// About the version, `~`.
    Tilde,
    /// Compatible with the version, `^` or no operator.
    Compatible,
    /// Any version where a `*` stands, whichever part it stands for.
    Wildcard,
}

/// One predicate of a version requirement: an operator and the parts of a
/// version that it names.
#[derive(Debug, Clone, Copy, PartialEq, Eq)]
pub struct Predicate {
    pub op: Op,
    pub major: u64,
    pub minor: Option<u64>,
    pub patch: Option<u64>,
}

/// A parsed requirement, `semver_parser::range::VersionReq`: carried from
/// the parser to the functions below that read its predicates.
#[verifier::external_type_specification]
#[verifier::external_body]
pub struct ExVersionReq(semver_parser::range::VersionReq);

/// What `semver_parser::range::parse` makes of a text: the predicates of the
/// requirement, or the message of its error.
pub uninterp spec fn range_parse(s: Seq<char>) -> Result<Seq<Predicate>, Seq<char>>;

/// The predicates that a requirement of `semver_parser` holds, in order,
/// each by its operator and its numbers.
pub uninterp spec fn req_predicates(req: semver_parser::range::VersionReq) -> Seq<Predicate>;

/// Parses a version requirement: `semver_parser::range::parse`.
///
/// The result is what `range_parse` names for the text.
#[verifier::external_body]
fn parse_req(s: &str) -> (r: Result<semver_parser::range::VersionReq, String>)
    ensures
        match r {
            Ok(req) => range_parse(s@) == Ok::<Seq<Predicate>, Seq<char>>(req_predicates(req)),
            Err(e) => range_parse(s@) == Err::<Seq<Predicate>, Seq<char>>(e@),
        },
{
    semver_parser::range::parse(s)
}

/// How many predicates a requirement holds: the length of its field
/// `predicates`.
#[verifier::external_body]
fn req_len(req: &semver_parser::range::VersionReq) -> (n: usize)
    ensures
        n == req_predicates(*req).len(),
{
    req.predicates.len()
}

/// The predicate at place `i` of a requirement: the fields `op`, `major`,
/// `minor` and `patch` of that element of `predicates`.
#[verifier::external_body]
fn req_get(req: &semver_parser::range::VersionReq, i: usize) -> (p: Predicate)
    requires
        i < req_predicates(*req).len(),
    ensures
        p == req_predicates(*req)[i as int],
{
    let p = &req.predicates[i];
    let op = match p.op {
        semver_parser::range::Op::Ex => Op::Ex,
        semver_parser::range::Op::Gt => Op::Gt,
        semver_parser::range::Op::GtEq => Op::GtEq,
        semver_parser::range::Op::Lt => Op::Lt,
        semver_parser::range::Op::LtEq => Op::LtEq,
        semver_parser::range::Op::Tilde => Op::Tilde,
        semver_parser::range::Op::Compatible => Op::Compatible,
        semver_parser::range::Op::Wildcard(_) => Op::Wildcard,
    };
    Predicate { op, major: p.major, minor: p.minor, patch: p.patch }
}

/// A version requirement: its text and the predicates that the text stands
/// for.
#[derive(Debug, Clone, PartialEq, Eq)]
pub struct VersionRange {
    text: String,
    predicates: Vec<Predicate>,
}

/// A version requirement as a mathematical value.
pub struct VersionRangeView {
    pub text: Seq<char>,
    pub predicates: Seq<Predicate>,
}

impl View for VersionRange {
    type V = VersionRangeView;

    closed spec fn view(&self) -> VersionRangeView {
        VersionRangeView { text: self.text@, predicates: self.predicates@ }
    }
}

/// The version that a predicate names: as many of major, minor and patch
/// as it gives, with dots between them. A patch without a minor is left out.
pub open spec fn version_text(p: Predicate) -> Seq<char> {
    match (p.minor, p.patch) {
        (Some(minor), Some(patch)) => decimal(p.major as nat) + seq!['.'] + decimal(minor as nat)
            + seq!['.'] + decimal(patch as nat),
        (Some(minor), None) => decimal(p.major as nat) + seq!['.'] + decimal(minor as nat),
        _ => decimal(p.major as nat),
    }
}

/// A version that meets the first `n` predicates as far as one predicate
/// can tell: that of the last predicate which is exact, at most, tilde,
/// compatible or wildcard, or else that of the first which is at least.
pub open spec fn example_upto(preds: Seq<Predicate>, n: int) -> Option<Seq<char>>
    decreases n,
{
    if 0 < n <= preds.len() {
        let before = example_upto(preds, n - 1);
        let p = preds[n - 1];
        match p.op {
            Op::Ex | Op::LtEq | Op::Tilde | Op::Compatible | Op::Wildcard => Some(version_text(p)),
            Op::GtEq => if before.is_none() {
                Some(version_text(p))
            } else {
                before
            },
            _ => before,
        }
    } else {
        None
    }
}

/// The version to ask the resolver for: the latest release where the
/// requirement is `*`, and else an example of what it admits.
pub open spec fn coursier_text(v: VersionRangeView) -> Option<Seq<char>> {
    if v.text == "*"@ {
        Some("latest.release"@)
    } else {
        example_upto(v.predicates, v.predicates.len() as int)
    }
}

impl VersionRange {
    /// The requirement with the text `text` that stands for `predicates`.
    pub fn from_parts(text: String, predicates: Vec<Predicate>) -> (r: VersionRange)
        ensures
            r@ == (VersionRangeView { text: text@, predicates: predicates@ }),
    {
        VersionRange { text, predicates }
    }

    /// Reads a version requirement. The predicates are those that
    /// `semver_parser` finds in the text, and the error is its message.
    pub fn from_str(s: &str) -> (r: Result<VersionRange, String>)
        ensures
            match r {
                Ok(v) => v@.text == s@ && range_parse(s@) == Ok::<Seq<Predicate>, Seq<char>>(
                    v@.predicates,
                ),
                Err(e) => range_parse(s@) == Err::<Seq<Predicate>, Seq<char>>(e@),
            },
    {
        match parse_req(s) {
            Err(e) => Err(e),
            Ok(req) => {
                let n = req_len(&req);
                let mut predicates: Vec<Predicate> = Vec::new();
                let mut i: usize = 0;
                while i < n
                    invariant
                        i <= n == req_predicates(req).len(),
                        predicates@ == req_predicates(req).take(i as int),
                    decreases n - i,
                {
                    predicates.push(req_get(&req, i));
                    assert(predicates@ == req_predicates(req).take(i + 1));
                    i += 1;
                }
                assert(req_predicates(req).take(n as int) == req_predicates(req));
                let mut text = String::new();
                push_text(&mut text, s);
                assert(text@ =~= s@);
                Ok(VersionRange { text, predicates })
            },
        }
    }

    /// The text that the requirement was read from.
    pub fn to_string(&self) -> (r: String)
        ensures
            r@ == self@.text,
    {
        self.text.clone()
    }

    /// The predicates of the requirement.
    pub fn predicates(&self) -> (r: &Vec<Predicate>)
        ensures
            r@ == self@.predicates,
    {
        &self.predicates
    }

    /// A copy of the requirement.
    pub fn duplicate(&self) -> (r: VersionRange)
        ensures
            r@ == self@,
    {
        let mut predicates: Vec<Predicate> = Vec::new();
        let mut i: usize = 0;
        while i < self.predicates.len()
            invariant
                i <= self.predicates.len(),
                predicates@ == self.predicates@.take(i as int),
            decreases self.predicates.len() - i,
        {
            predicates.push(self.predicates[i]);
            assert(predicates@ == self.predicates@.take(i + 1));
            i += 1;
        }
        assert(self.predicates@.take(self.predicates.len() as int) == self.predicates@);
        VersionRange { text: self.text.clone(), predicates }
    }

    /// The version that a predicate names.
    pub fn format_version(i: &Predicate) -> (r: String)
        ensures
            r@ == version_text(*i),
    {
        let mut r = String::new();
        proof {
            reveal_strlit(".");
            assert("."@ == seq!['.']);
        }
        push_decimal(&mut r, i.major);
        match (i.minor, i.patch) {
            (Some(minor), Some(patch)) => {
                push_text(&mut r, ".");
                push_decimal(&mut r, minor);
                push_text(&mut r, ".");
                push_decimal(&mut r, patch);
            },
            (Some(minor), None) => {
                push_text(&mut r, ".");
                push_decimal(&mut r, minor);
            },
            _ => {},
        }
        assert(r@ =~= version_text(*i));
        r
    }

    /// A version that the requirement admits, as far as one predicate can
    /// tell.
    pub fn example(&self) -> (r: Option<String>)
        ensures
            match r {
                Some(s) => example_upto(self@.predicates, self@.predicates.len() as int) == Some(
                    s@,
                ),
                None => example_upto(self@.predicates, self@.predicates.len() as int).is_none(),
            },
    {
        let mut result: Option<String> = None;
        let mut i: usize = 0;
        while i < self.predicates.len()
            invariant
                i <= self.predicates.len(),
                match result {
                    Some(s) => example_upto(self.predicates@, i as int) == Some(s@),
                    None => example_upto(self.predicates@, i as int).is_none(),
                },
            decreases self.predicates.len() - i,
        {
            let p = &self.predicates[i];
            match p.op {
                Op::Ex | Op::LtEq | Op::Tilde | Op::Compatible | Op::Wildcard => {
                    result = Some(VersionRange::format_version(p));
                },
                Op::GtEq => {
                    if result.is_none() {
                        result = Some(VersionRange::format_version(p));
                    }
                },
                _ => {},
            }
            i += 1;
        }
        result
    }

    /// The version to ask the resolver for.
    pub fn as_coursier(&self) -> (r: Option<String>)
        ensures
            match r {
                Some(s) => coursier_text(self@) == Some(s@),
                None => coursier_text(self@).is_none(),
            },
    {
        if same_text(self.text.as_str(), "*") {
            let mut r = String::new();
            push_text(&mut r, "latest.release");
            assert(r@ =~= "latest.release"@);
            Some(r)
        } else {
            self.example()
        }
    }
}

} // verus!
