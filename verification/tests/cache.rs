use carsier::cache::{compare_and_write, load_content, FileDep, LoadError};

#[test]
fn check_keeps_the_token_where_the_condition_holds() {
    assert_eq!(FileDep::Unchanged.check(true), FileDep::Unchanged);
    assert_eq!(FileDep::Unchanged.check(false), FileDep::Touched);
    assert_eq!(FileDep::Touched.check(true), FileDep::Touched);
    assert_eq!(FileDep::Touched.check(false), FileDep::Touched);
    assert_eq!(FileDep::Unchanged.if_exists(true), FileDep::Unchanged);
    assert_eq!(FileDep::Unchanged.if_exists(false), FileDep::Touched);
    FileDep::Touched.drop();
}

#[test]
fn writing_the_same_content_twice_touches_once() {
    let bytes = b"hello".to_vec();
    let mut file: Option<Vec<u8>> = None;
    let before = file.clone();
    let first: Result<FileDep, String> = compare_and_write(before.as_ref(), &bytes, |c| {
        file = Some(c.clone());
        Ok(())
    });
    assert_eq!(first, Ok(FileDep::Touched));
    assert_eq!(file, Some(bytes.clone()));
    let before = file.clone();
    let mut written = false;
    let second: Result<FileDep, String> = compare_and_write(before.as_ref(), &bytes, |_| {
        written = true;
        Ok(())
    });
    assert_eq!(second, Ok(FileDep::Unchanged));
    assert!(!written);
    assert_eq!(file, Some(bytes));
}

fn compare(old: Option<&Vec<u8>>, new: &[u8]) -> FileDep {
    let r: Result<FileDep, String> = compare_and_write(old, &new.to_vec(), |_| Ok(()));
    r.unwrap()
}

#[test]
fn different_content_is_touched() {
    let old = b"hello".to_vec();
    assert_eq!(compare(Some(&old), b"hellp"), FileDep::Touched);
    assert_eq!(compare(Some(&old), b"hell"), FileDep::Touched);
    assert_eq!(compare(Some(&old), b"hello!"), FileDep::Touched);
    assert_eq!(compare(Some(&old), b"hello"), FileDep::Unchanged);
    assert_eq!(compare(Some(&Vec::new()), b""), FileDep::Unchanged);
    assert_eq!(compare(None, b""), FileDep::Touched);
}

#[test]
fn a_failed_write_is_an_error() {
    let r: Result<FileDep, String> = compare_and_write(None, &b"x".to_vec(), |_| Err("locked".to_string()));
    assert_eq!(r, Err("locked".to_string()));
}

#[test]
fn a_stage_with_fresh_output_is_skipped() {
    let mut dep = FileDep::Unchanged;
    let mut computed = false;
    let got: Result<Vec<u8>, String> = dep.exists_and_write(
        true,
        || {
            computed = true;
            Ok(b"new".to_vec())
        },
        |_| Ok(FileDep::Touched),
        || Ok(b"cached".to_vec()),
    );
    assert_eq!(got, Ok(b"cached".to_vec()));
    assert!(!computed);
    assert_eq!(dep, FileDep::Unchanged);
}

#[test]
fn a_stage_without_output_runs_and_takes_the_token_of_the_write() {
    let mut dep = FileDep::Unchanged;
    let mut stored: Vec<u8> = Vec::new();
    let got: Result<Vec<u8>, String> = dep.exists_and_write(
        false,
        || Ok(b"new".to_vec()),
        |content| {
            stored = content.clone();
            Ok(FileDep::Touched)
        },
        || Err("not read".to_string()),
    );
    assert_eq!(got, Ok(b"new".to_vec()));
    assert_eq!(stored, b"new".to_vec());
    assert_eq!(dep, FileDep::Touched);
}

#[test]
fn a_touched_stage_runs_and_may_find_its_output_unchanged() {
    let mut dep = FileDep::Touched;
    let got: Result<Vec<u8>, String> =
        dep.exists_and_write(true, || Ok(b"same".to_vec()), |_| Ok(FileDep::Unchanged), || Err("not read".to_string()));
    assert_eq!(got, Ok(b"same".to_vec()));
    assert_eq!(dep, FileDep::Unchanged);
}

#[test]
fn a_failing_stage_keeps_its_token() {
    let mut dep = FileDep::Touched;
    let got: Result<Vec<u8>, String> =
        dep.exists_and_write(true, || Err("boom".to_string()), |_| Ok(FileDep::Unchanged), || Ok(Vec::new()));
    assert_eq!(got, Err("boom".to_string()));
    assert_eq!(dep, FileDep::Touched);
    let got: Result<Vec<u8>, String> =
        dep.exists_and_write(true, || Ok(Vec::new()), |_| Err("disk".to_string()), || Ok(Vec::new()));
    assert_eq!(got, Err("disk".to_string()));
    assert_eq!(dep, FileDep::Touched);
}

#[test]
fn with_runs_only_where_touched() {
    let mut dep = FileDep::Unchanged;
    let mut ran = false;
    let got: Result<&mut FileDep, String> = dep.with(|| {
        ran = true;
        Ok(FileDep::Touched)
    });
    assert_eq!(got, Ok(&mut FileDep::Unchanged));
    assert!(!ran);
    assert_eq!(dep, FileDep::Unchanged);

    let mut dep = FileDep::Touched;
    let got: Result<&mut FileDep, String> = dep.with(|| Ok(FileDep::Unchanged));
    assert_eq!(got, Ok(&mut FileDep::Unchanged));
    assert_eq!(dep, FileDep::Unchanged);

    let mut dep = FileDep::Touched;
    let got: Result<&mut FileDep, String> = dep.with(|| Err("no".to_string()));
    assert_eq!(got, Err("no".to_string()));
    assert_eq!(dep, FileDep::Touched);
}

#[test]
fn with_hands_the_token_on() {
    let mut dep = FileDep::Touched;
    let next = dep
        .with(|| Ok::<FileDep, String>(FileDep::Touched))
        .unwrap()
        .with(|| Ok::<FileDep, String>(FileDep::Unchanged))
        .unwrap()
        .with(|| Err::<FileDep, String>("not run".to_string()))
        .unwrap();
    assert_eq!(*next, FileDep::Unchanged);
    assert_eq!(dep, FileDep::Unchanged);
}

#[test]
fn load_content_reads_utf8() {
    assert_eq!(load_content(None), Ok(None));
    assert_eq!(load_content(Some("héllo".as_bytes().to_vec())), Ok(Some("héllo".to_string())));
    assert_eq!(load_content(Some(Vec::new())), Ok(Some(String::new())));
    assert_eq!(load_content(Some(vec![0xff, 0xfe])), Err(LoadError::NotUtf8));
    assert_eq!(load_content(Some(vec![b'a', 0xc3])), Err(LoadError::NotUtf8));
}
