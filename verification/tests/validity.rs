use yavhdl::util::Latin1Str;

#[test]
fn latin1_pretty_name() {
    let x = Latin1Str {
        bytes: b"test".to_vec(),
    };
    assert_eq!(x.pretty_name(), "test");
    let x = Latin1Str {
        bytes: b"te\xC0st\xFE".to_vec(),
    };
    assert_eq!(x.pretty_name(), "teÀstþ");
}

#[test]
fn basic_id_validator() {
    assert!(Latin1Str {
        bytes: b"foo".to_vec()
    }
    .valid_for_basic_id());
    assert!(Latin1Str {
        bytes: b"foo012".to_vec()
    }
    .valid_for_basic_id());
    assert!(Latin1Str {
        bytes: b"foo_012".to_vec()
    }
    .valid_for_basic_id());
    assert!(!Latin1Str {
        bytes: b"f__oo".to_vec()
    }
    .valid_for_basic_id());
    assert!(!Latin1Str {
        bytes: b"foo_".to_vec()
    }
    .valid_for_basic_id());
    assert!(!Latin1Str {
        bytes: b"_foo".to_vec()
    }
    .valid_for_basic_id());
}

#[test]
fn ext_id_validator() {
    // any non-empty byte string free of C0 controls, delete, and C1 controls
    assert!(Latin1Str {
        bytes: b"foo_".to_vec()
    }
    .valid_for_ext_id());
    assert!(Latin1Str {
        bytes: b" !@# $%".to_vec()
    }
    .valid_for_ext_id());
    assert!(Latin1Str {
        bytes: b"\xA0\xFF".to_vec()
    }
    .valid_for_ext_id());
    assert!(!Latin1Str { bytes: Vec::new() }.valid_for_ext_id());
    assert!(!Latin1Str {
        bytes: b"a\x00b".to_vec()
    }
    .valid_for_ext_id());
    assert!(!Latin1Str {
        bytes: b"a\x7Fb".to_vec()
    }
    .valid_for_ext_id());
    assert!(!Latin1Str {
        bytes: b"a\x9Fb".to_vec()
    }
    .valid_for_ext_id());
}

#[test]
fn pretty_name_escapes() {
    // C0 controls become control pictures, delete too
    let x = Latin1Str {
        bytes: b"\x00a\x1F\x7F".to_vec(),
    };
    assert_eq!(x.pretty_name(), "␀a␟␡");
    // C1 controls, no-break space, and soft hyphen become \xNN escapes
    let x = Latin1Str {
        bytes: b"\x80\x9A\xA0\xAD".to_vec(),
    };
    assert_eq!(x.pretty_name(), "\\x80\\x9a\\xa0\\xad");
    // other high bytes keep their (Latin-1) glyph
    let x = Latin1Str {
        bytes: b"\xA1\xFF".to_vec(),
    };
    assert_eq!(x.pretty_name(), "¡ÿ");
}
