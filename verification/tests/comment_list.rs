use zoog::comment_list::{DiscreteCommentList, KeyValueMatch, ValueMatch};
use zoog::error::Error;

fn b(s: &str) -> Vec<u8> {
    s.as_bytes().to_vec()
}

#[test]
fn replace_pushes_on_missing() -> Result<(), Error> {
    let key = b("foo");
    let value = b("bar");

    let mut list_1 = DiscreteCommentList::default();
    list_1.push(&b("v0"), &b("k0"))?;
    list_1.push(&key, &value)?;
    list_1.push(&b("v1"), &b("k1"))?;

    let mut list_2 = DiscreteCommentList::default();
    list_2.push(&b("v0"), &b("k0"))?;
    list_2.replace(&key, &value)?;
    list_2.push(&b("v1"), &b("k1"))?;

    assert_eq!(list_1, list_2);
    Ok(())
}

#[test]
fn replace_replaces_on_duplicates() -> Result<(), Error> {
    let mut list_1 = DiscreteCommentList::default();
    list_1.push(&b("v0"), &b("k0"))?;
    list_1.push(&b("v1"), &b("k1"))?;
    list_1.push(&b("v2"), &b("k2"))?;
    list_1.push(&b("v3"), &b("k3"))?;
    list_1.push(&b("v2"), &b("k4"))?;
    list_1.push(&b("v5"), &b("k5"))?;
    list_1.push(&b("v2"), &b("k6"))?;
    list_1.push(&b("v7"), &b("k7"))?;
    list_1.replace(&b("v2"), &b("k8"))?;

    let mut list_2 = DiscreteCommentList::default();
    list_2.push(&b("v0"), &b("k0"))?;
    list_2.push(&b("v1"), &b("k1"))?;
    list_2.push(&b("v2"), &b("k8"))?;
    list_2.push(&b("v3"), &b("k3"))?;
    list_2.push(&b("v5"), &b("k5"))?;
    list_2.push(&b("v7"), &b("k7"))?;

    assert_eq!(list_1, list_2);
    Ok(())
}

#[test]
fn get_first_case_insensitive() -> Result<(), Error> {
    let mut list_1 = DiscreteCommentList::default();
    list_1.push(&b("FooBar"), &b("1"))?;
    list_1.push(&b("FOOBAR"), &b("2"))?;
    list_1.push(&b("foobar"), &b("3"))?;

    assert_eq!(list_1.get_first(&b("FooBar")), Some(&b("1")));
    assert_eq!(list_1.get_first(&b("FOOBAR")), Some(&b("1")));
    assert_eq!(list_1.get_first(&b("foobar")), Some(&b("1")));
    assert_eq!(list_1.get_first(&b("FoObAr")), Some(&b("1")));
    Ok(())
}

#[test]
fn replace_case_insensitive() -> Result<(), Error> {
    let mut list_1 = DiscreteCommentList::default();
    list_1.push(&b("FooBar"), &b("1"))?;
    list_1.push(&b("FOOBAR"), &b("2"))?;
    list_1.push(&b("foobar"), &b("3"))?;
    list_1.replace(&b("FoObAr"), &b("42"))?;

    assert_eq!(list_1.get_first(&b("FOObar")), Some(&b("42")));
    assert_eq!(list_1.len(), 1);
    Ok(())
}

#[test]
fn remove_all_case_insensitive() -> Result<(), Error> {
    let mut list_1 = DiscreteCommentList::default();
    list_1.push(&b("FooBar"), &b("1"))?;
    list_1.push(&b("FOOBAR"), &b("2"))?;
    list_1.push(&b("v0"), &b("k0"))?;
    list_1.push(&b("foobar"), &b("3"))?;
    list_1.push(&b("v5"), &b("k5"))?;
    list_1.remove_all(&b("FOObar"));

    let mut list_2 = DiscreteCommentList::default();
    list_2.push(&b("v0"), &b("k0"))?;
    list_2.push(&b("v5"), &b("k5"))?;

    assert_eq!(list_1, list_2);
    Ok(())
}

#[test]
fn push_rejects_invalid_keys() {
    let mut list = DiscreteCommentList::default();
    assert_eq!(
        list.push(&b(""), &b("x")),
        Err(Error::InvalidCommentFieldName)
    );
    assert_eq!(
        list.push(&b("a=b"), &b("x")),
        Err(Error::InvalidCommentFieldName)
    );
    assert_eq!(
        list.push(&b("a\nb"), &b("x")),
        Err(Error::InvalidCommentFieldName)
    );
    assert_eq!(list.len(), 0);
}

#[test]
fn delete_by_key_matches_any_value() -> Result<(), Error> {
    let mut list = DiscreteCommentList::default();
    list.push(&b("TITLE"), &b("a"))?;
    list.push(&b("ARTIST"), &b("b"))?;
    list.push(&b("TITLE"), &b("c"))?;

    let mut patterns = KeyValueMatch::new();
    patterns.add(b("TITLE"), ValueMatch::All);
    list.retain_not_matching(&patterns);

    let mut expected = DiscreteCommentList::default();
    expected.push(&b("ARTIST"), &b("b"))?;
    assert_eq!(list, expected);
    Ok(())
}

#[test]
fn delete_by_key_value_is_exact_on_value() -> Result<(), Error> {
    let mut list = DiscreteCommentList::default();
    list.push(&b("TITLE"), &b("a"))?;
    list.push(&b("title"), &b("A"))?;
    list.push(&b("TITLE"), &b("b"))?;

    let mut patterns = KeyValueMatch::new();
    patterns.add(b("title"), ValueMatch::singleton(b("a")));
    list.retain_not_matching(&patterns);

    // The key matches ignoring case, the value matches exactly.
    let mut expected = DiscreteCommentList::default();
    expected.push(&b("title"), &b("A"))?;
    expected.push(&b("TITLE"), &b("b"))?;
    assert_eq!(list, expected);
    Ok(())
}

#[test]
fn value_match_union() {
    let mut m = ValueMatch::singleton(b("x"));
    m.union_with(ValueMatch::singleton(b("y")));
    assert!(m.matches(&b("x")));
    assert!(m.matches(&b("y")));
    assert!(!m.matches(&b("z")));
    m.union_with(ValueMatch::All);
    assert!(m.matches(&b("z")));
}
