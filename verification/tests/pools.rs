use yavhdl::objpools::{ObjPool, StringPool};

#[test]
fn stringpool_basic_works() {
    let mut sp = StringPool::new();
    let x = sp.add_latin1_str(&b"test1".to_vec());
    let y = sp.add_latin1_str(&b"test2".to_vec());
    let sx = sp.retrieve_latin1_str(x);
    let sy = sp.retrieve_latin1_str(y);
    assert_eq!(sx.raw_name().as_slice(), b"test1");
    assert_eq!(sy.raw_name().as_slice(), b"test2");
}

#[test]
fn stringpool_actually_pools() {
    let mut sp = StringPool::new();
    sp.add_latin1_str(&b"test1".to_vec());
    sp.add_latin1_str(&b"test2".to_vec());
    assert_eq!(sp.storage.as_slice(), b"test1test2");
}

#[test]
fn stringpool_interns() {
    let mut sp = StringPool::new();
    let x = sp.add_latin1_str(&b"test1".to_vec());
    let y = sp.add_latin1_str(&b"test1".to_vec());
    assert_eq!(x, y);
    assert_eq!(sp.storage.as_slice(), b"test1");
}

#[test]
fn stringpool_distinct_strings_distinct_indices() {
    let mut sp = StringPool::new();
    let x = sp.add_latin1_str(&b"alpha".to_vec());
    let y = sp.add_latin1_str(&b"beta".to_vec());
    assert_ne!(x, y);
    // interning again changes nothing
    let x2 = sp.add_latin1_str(&b"alpha".to_vec());
    let y2 = sp.add_latin1_str(&b"beta".to_vec());
    assert_eq!(x, x2);
    assert_eq!(y, y2);
    assert_eq!(sp.storage.as_slice(), b"alphabeta");
}

#[test]
fn stringpool_osstr_shares_storage() {
    let mut sp = StringPool::new();
    let x = sp.add_osstr(&b"file.vhd".to_vec());
    let back = sp.retrieve_osstr(x);
    assert_eq!(back.as_slice(), b"file.vhd");
    // identical bytes through the Latin-1 domain reuse the storage
    sp.add_latin1_str(&b"file.vhd".to_vec());
    assert_eq!(sp.storage.as_slice(), b"file.vhd");
}

#[derive(Default)]
struct ObjPoolTestObject {
    foo: u32,
}

#[test]
fn objpool_basic_works() {
    let mut pool = ObjPool::<ObjPoolTestObject>::new();
    let x = pool.allocate(ObjPoolTestObject::default());
    let y = pool.allocate(ObjPoolTestObject::default());
    {
        let o = pool.get_mut(x);
        o.foo = 123;
    }
    {
        let o = pool.get_mut(y);
        o.foo = 456;
    }
    let ox = pool.get(x);
    let oy = pool.get(y);
    assert_eq!(ox.foo, 123);
    assert_eq!(oy.foo, 456);
}
