use carsier::config::version::{Op, Predicate, VersionRange};
use carsier::strset::text_lt;
use carsier::text::{lines_of, replace_all, split_text, trimmed};

fn chars(s: &str) -> Vec<char> {
    s.chars().collect()
}

fn text(v: &[char]) -> String {
    v.iter().collect()
}

fn samples() -> Vec<String> {
    let pieces = ["", "a", "b", " ", "\t", "\n", "\r", "\r\n", ".", "-", "é", "\u{3000}", "ab", "a.b", "a-b", "%^"];
    let mut all = Vec::new();
    for x in pieces {
        for y in pieces {
            for z in pieces {
                all.push(format!("{}{}{}", x, y, z));
            }
        }
    }
    all
}

#[test]
fn trim_agrees_with_the_standard_library() {
    for s in samples() {
        assert_eq!(text(&trimmed(&chars(&s))), s.trim());
    }
}

#[test]
fn split_agrees_with_the_standard_library() {
    for s in samples() {
        for sep in ['.', '-', 'a'] {
            let expected: Vec<String> = s.split(sep).map(|p| p.to_string()).collect();
            assert_eq!(split_text(&chars(&s), sep), expected);
        }
    }
}

#[test]
fn lines_agree_with_the_standard_library() {
    for s in samples() {
        let expected: Vec<String> = s.lines().map(|p| p.to_string()).collect();
        let got: Vec<String> = lines_of(&chars(&s)).iter().map(|l| text(l)).collect();
        assert_eq!(got, expected);
    }
}

#[test]
fn replace_agrees_with_the_standard_library() {
    for s in samples() {
        for pat in ["a", "ab", ".", "\r\n", "aa", "é"] {
            assert_eq!(replace_all(&s, pat, "<>"), s.replace(pat, "<>"));
        }
    }
}

#[test]
fn order_agrees_with_the_standard_library() {
    let all = samples();
    for a in all.iter().step_by(7) {
        for b in all.iter().step_by(11) {
            assert_eq!(text_lt(a, b), a < b);
        }
    }
}

#[test]
fn decimal_agrees_with_the_standard_library() {
    for n in [0u64, 1, 9, 10, 11, 99, 100, 12345, 1 << 32, u64::MAX - 1, u64::MAX] {
        let p = Predicate { op: Op::Ex, major: n, minor: None, patch: None };
        assert_eq!(VersionRange::format_version(&p), n.to_string());
    }
}
