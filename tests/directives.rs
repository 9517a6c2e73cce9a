use link_args::{assemble, total_size, Directive};

#[test]
fn sizes_by_kind() {
    assert_eq!(Directive::StackSize { reserve: 7 }.size_of(), 18);
    assert_eq!(Directive::StackSizeWithCommit { reserve: 7, commit: 1 }.size_of(), 29);
    assert_eq!(Directive::DefaultLib { name: "ucrt" }.size_of(), 19);
    assert_eq!(Directive::DefaultLib { name: "my\"lib" }.size_of(), 0);
    assert_eq!(Directive::NoDefaultLib { name: Some("ucrtd.lib") }.size_of(), 26);
    assert_eq!(Directive::NoDefaultLib { name: Some("x\"") }.size_of(), 0);
    assert_eq!(Directive::NoDefaultLib { name: None }.size_of(), 14);
    assert_eq!(Directive::Raw { text: "/ENTRY:mainCRTStartup" }.size_of(), 22);
}

#[test]
fn assemble_default_libs() {
    let ds = [
        Directive::DefaultLib { name: "ucrt" },
        Directive::DefaultLib { name: "libvcruntime" },
        Directive::DefaultLib { name: "libcmt" },
    ];
    assert_eq!(total_size(&ds), 67);
    let out: [u8; 67] = assemble(&ds);
    assert_eq!(
        &out[..],
        &b"/DEFAULTLIB:\"ucrt\" /DEFAULTLIB:\"libvcruntime\" /DEFAULTLIB:\"libcmt\" "[..]
    );
}

#[test]
fn assemble_quoted_name_leaves_no_trace() {
    let ds = [
        Directive::DefaultLib { name: "my\"lib" },
        Directive::NoDefaultLib { name: None },
    ];
    assert_eq!(total_size(&ds), 14);
    let out: [u8; 14] = assemble(&ds);
    assert_eq!(&out, b"/NODEFAULTLIB ");
}

#[test]
fn assemble_every_kind_fills_exactly() {
    let ds = [
        Directive::StackSize { reserve: 0x800000 },
        Directive::StackSizeWithCommit { reserve: 0x800000, commit: 0x400000 },
        Directive::DefaultLib { name: "kernel32.lib" },
        Directive::NoDefaultLib { name: Some("libcmtd.lib") },
        Directive::NoDefaultLib { name: None },
        Directive::Raw { text: "/ENTRY:mainCRTStartup" },
    ];
    let total = total_size(&ds);
    assert_eq!(total, 18 + 29 + 27 + 28 + 14 + 22);
    let out: [u8; 138] = assemble(&ds);
    let expected: &[u8] = b"/STACK:0x00800000 /STACK:0x00800000,0x00400000 \
/DEFAULTLIB:\"kernel32.lib\" /NODEFAULTLIB:\"libcmtd.lib\" /NODEFAULTLIB \
/ENTRY:mainCRTStartup ";
    assert_eq!(expected.len(), total);
    assert_eq!(&out[..], expected);
    assert!(!out.contains(&0));
}

#[test]
fn assemble_order_follows_input() {
    let a = Directive::Raw { text: "/A" };
    let b = Directive::StackSize { reserve: 2 };
    let ab: [u8; 21] = assemble(&[a, b]);
    assert_eq!(&ab, b"/A /STACK:0x00000002 ");
    let a = Directive::Raw { text: "/A" };
    let b = Directive::StackSize { reserve: 2 };
    let ba: [u8; 21] = assemble(&[b, a]);
    assert_eq!(&ba, b"/STACK:0x00000002 /A ");
}

#[test]
fn assemble_into_larger_buffer_pads_with_zero() {
    let out: [u8; 16] = assemble(&[Directive::NoDefaultLib { name: None }]);
    assert_eq!(&out, b"/NODEFAULTLIB \0\0");
}

#[test]
fn assemble_nothing() {
    assert_eq!(total_size(&[]), 0);
    let out: [u8; 0] = assemble(&[]);
    assert_eq!(out.len(), 0);
}
