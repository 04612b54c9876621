use std::collections::hash_map::DefaultHasher;
use std::hash::{Hash, Hasher};

use yavhdl::identifier::Identifier;
use yavhdl::objpools::StringPool;

#[test]
fn identifier_basic() {
    let mut sp = StringPool::new();

    let sp_idx = sp.add_latin1_str(&b"foo".to_vec());
    let test1 = Identifier::new_latin1(&mut sp, sp_idx, false).unwrap();
    assert_eq!(
        sp.retrieve_latin1_str(test1.orig_name).raw_name().as_slice(),
        b"foo"
    );
    assert_eq!(
        sp.retrieve_latin1_str(test1.canonical_name)
            .raw_name()
            .as_slice(),
        b"foo"
    );
    assert_eq!(sp.retrieve_latin1_str(test1.orig_name).pretty_name(), "foo");
    assert!(!test1.is_extended_id);

    let sp_idx = sp.add_latin1_str(&b"FoO".to_vec());
    let test2 = Identifier::new_latin1(&mut sp, sp_idx, false).unwrap();
    assert_eq!(
        sp.retrieve_latin1_str(test2.orig_name).raw_name().as_slice(),
        b"FoO"
    );
    assert_eq!(
        sp.retrieve_latin1_str(test2.canonical_name)
            .raw_name()
            .as_slice(),
        b"foo"
    );
    assert_eq!(sp.retrieve_latin1_str(test2.orig_name).pretty_name(), "FoO");
    assert!(!test2.is_extended_id);

    let sp_idx = sp.add_latin1_str(&b"foo_".to_vec());
    let test3 = Identifier::new_latin1(&mut sp, sp_idx, false);
    assert!(test3.is_err());

    let sp_idx = sp.add_latin1_str(&b"FoO".to_vec());
    let test4 = Identifier::new_latin1(&mut sp, sp_idx, true).unwrap();
    assert_eq!(
        sp.retrieve_latin1_str(test4.orig_name).raw_name().as_slice(),
        b"FoO"
    );
    assert_eq!(
        sp.retrieve_latin1_str(test4.canonical_name)
            .raw_name()
            .as_slice(),
        b"FoO"
    );
    assert_eq!(sp.retrieve_latin1_str(test4.orig_name).pretty_name(), "FoO");
    assert!(test4.is_extended_id);
}

#[test]
fn identifier_latin1_unusual() {
    let mut sp = StringPool::new();

    let sp_idx = sp.add_latin1_str(&b"f\xD6o".to_vec());
    let test1 = Identifier::new_latin1(&mut sp, sp_idx, false).unwrap();
    assert_eq!(
        sp.retrieve_latin1_str(test1.orig_name).raw_name().as_slice(),
        b"f\xD6o"
    );
    assert_eq!(
        sp.retrieve_latin1_str(test1.canonical_name)
            .raw_name()
            .as_slice(),
        b"f\xF6o"
    );
    assert_eq!(sp.retrieve_latin1_str(test1.orig_name).pretty_name(), "fÖo");
    assert!(!test1.is_extended_id);

    let sp_idx = sp.add_latin1_str(&b"foo\xD7".to_vec());
    let test2 = Identifier::new_latin1(&mut sp, sp_idx, false);
    assert!(test2.is_err());

    let sp_idx = sp.add_latin1_str(&b"f\xD6o\xD7\xBC".to_vec());
    let test3 = Identifier::new_latin1(&mut sp, sp_idx, true).unwrap();
    assert_eq!(
        sp.retrieve_latin1_str(test3.orig_name).raw_name().as_slice(),
        b"f\xD6o\xD7\xBC"
    );
    assert_eq!(
        sp.retrieve_latin1_str(test3.canonical_name)
            .raw_name()
            .as_slice(),
        b"f\xD6o\xD7\xBC"
    );
    assert_eq!(
        sp.retrieve_latin1_str(test3.orig_name).pretty_name(),
        "fÖo×¼"
    );
    assert!(test3.is_extended_id);
}

#[test]
fn identifier_unicode() {
    let mut sp = StringPool::new();

    let test1 = Identifier::new_unicode(&mut sp, "FoO", false).unwrap();
    assert_eq!(
        sp.retrieve_latin1_str(test1.orig_name).raw_name().as_slice(),
        b"FoO"
    );
    assert_eq!(
        sp.retrieve_latin1_str(test1.canonical_name)
            .raw_name()
            .as_slice(),
        b"foo"
    );
    assert_eq!(sp.retrieve_latin1_str(test1.orig_name).pretty_name(), "FoO");
    assert!(!test1.is_extended_id);

    let test2 = Identifier::new_unicode(&mut sp, "fÖo", false).unwrap();
    assert_eq!(
        sp.retrieve_latin1_str(test2.orig_name).raw_name().as_slice(),
        b"f\xD6o"
    );
    assert_eq!(
        sp.retrieve_latin1_str(test2.canonical_name)
            .raw_name()
            .as_slice(),
        b"f\xF6o"
    );
    assert_eq!(sp.retrieve_latin1_str(test2.orig_name).pretty_name(), "fÖo");
    assert!(!test2.is_extended_id);

    let test3 = Identifier::new_unicode(&mut sp, "fooĀ", false);
    assert!(test3.is_err());

    let test4 = Identifier::new_unicode(&mut sp, "f😀oo", false);
    assert!(test4.is_err());
}

fn hash_key(id: &Identifier) -> u64 {
    // Equality uses only the canonical index and the extendedness flag, so a
    // hash over that pair is consistent with it.
    let mut s = DefaultHasher::new();
    (id.canonical_name, id.is_extended_id).hash(&mut s);
    s.finish()
}

#[test]
fn identifier_eq_and_hash() {
    let mut sp = StringPool::new();

    let test1 = Identifier::new_unicode(&mut sp, "foo", false).unwrap();
    let test2 = Identifier::new_unicode(&mut sp, "fOo", false).unwrap();
    assert_eq!(hash_key(&test1), hash_key(&test2));
    assert_eq!(test1, test2);

    let test1 = Identifier::new_unicode(&mut sp, "foo", false).unwrap();
    let test2 = Identifier::new_unicode(&mut sp, "foo", true).unwrap();
    assert!(test1 != test2);

    let test1 = Identifier::new_unicode(&mut sp, "foo", true).unwrap();
    let test2 = Identifier::new_unicode(&mut sp, "foo", true).unwrap();
    assert_eq!(hash_key(&test1), hash_key(&test2));
    assert_eq!(test1, test2);

    let test1 = Identifier::new_unicode(&mut sp, "foo", true).unwrap();
    let test2 = Identifier::new_unicode(&mut sp, "fOo", true).unwrap();
    assert!(test1 != test2);
}
