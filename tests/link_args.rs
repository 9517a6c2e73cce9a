use link_args::{ArgSize, LinkArgs};

#[test]
fn stack_size_scenario() {
    let args = LinkArgs::<{ ArgSize::STACK_SIZE }>::new().stack_size(0x800000);
    assert_eq!(args.len(), 18);
    assert_eq!(&args.into_array(), b"/STACK:0x00800000 ");
}

#[test]
fn stack_size_zero_and_max() {
    let a = LinkArgs::<18>::new().stack_size(0).into_array();
    assert_eq!(&a, b"/STACK:0x00000000 ");
    let b = LinkArgs::<18>::new().stack_size(u32::MAX).into_array();
    assert_eq!(&b, b"/STACK:0xffffffff ");
}

#[test]
fn stack_size_with_commit_text() {
    let args = LinkArgs::<{ ArgSize::STACK_SIZE_WITH_COMMIT }>::new()
        .stack_size_with_commit(0x800000, 0x400000);
    assert_eq!(args.len(), 29);
    assert_eq!(&args.into_array(), b"/STACK:0x00800000,0x00400000 ");
}

#[test]
fn default_libs_scenario() {
    let args = LinkArgs::<67>::new()
        .default_lib("ucrt")
        .default_lib("libvcruntime")
        .default_lib("libcmt");
    assert_eq!(args.len(), 67);
    assert_eq!(
        &args.into_array()[..],
        &b"/DEFAULTLIB:\"ucrt\" /DEFAULTLIB:\"libvcruntime\" /DEFAULTLIB:\"libcmt\" "[..]
    );
}

#[test]
fn default_lib_sizes() {
    assert_eq!(ArgSize::default_lib("ucrt"), 19);
    assert_eq!(ArgSize::default_lib("libvcruntime"), 27);
    assert_eq!(ArgSize::default_lib("libcmt"), 21);
    assert_eq!(ArgSize::default_lib(""), 15);
}

#[test]
fn default_lib_with_quote_is_dropped() {
    assert_eq!(ArgSize::default_lib("my\"lib"), 0);
    let args = LinkArgs::<19>::new().default_lib("my\"lib").default_lib("ucrt");
    assert_eq!(args.len(), 19);
    assert_eq!(&args.into_array(), b"/DEFAULTLIB:\"ucrt\" ");
}

#[test]
fn no_default_lib_named() {
    assert_eq!(ArgSize::no_default_lib("msvcrt.lib"), 27);
    let args = LinkArgs::<27>::new().no_default_lib("msvcrt.lib");
    assert_eq!(&args.into_array(), b"/NODEFAULTLIB:\"msvcrt.lib\" ");
}

#[test]
fn no_default_lib_with_quote_is_dropped() {
    assert_eq!(ArgSize::no_default_lib("a\"b"), 0);
    let args = LinkArgs::<0>::new().no_default_lib("a\"b");
    assert_eq!(args.len(), 0);
}

#[test]
fn disable_all_default_libs_scenario() {
    let args = LinkArgs::<{ ArgSize::DISABLE_ALL_DEFAULT_LIBS }>::new().disable_all_default_libs();
    assert_eq!(args.len(), 14);
    assert_eq!(&args.into_array(), b"/NODEFAULTLIB ");
}

#[test]
fn raw_scenario() {
    let args = LinkArgs::<22>::new().raw("/ENTRY:mainCRTStartup");
    assert_eq!(args.len(), 22);
    assert_eq!(&args.into_array(), b"/ENTRY:mainCRTStartup ");
}

#[test]
fn new_is_empty() {
    let args = LinkArgs::<3>::new();
    assert_eq!(args.len(), 0);
    assert_eq!(args.into_array(), [0u8; 3]);
}

#[test]
fn underfilled_buffer_keeps_zero_bytes() {
    let a = LinkArgs::<20>::new().stack_size(1).into_array();
    assert_eq!(&a, b"/STACK:0x00000001 \0\0");
}

#[test]
fn chained_directives_keep_order() {
    let a = LinkArgs::<32>::new().disable_all_default_libs().stack_size(16).into_array();
    assert_eq!(&a, b"/NODEFAULTLIB /STACK:0x00000010 ");
    let b = LinkArgs::<32>::new().stack_size(16).disable_all_default_libs().into_array();
    assert_eq!(&b, b"/STACK:0x00000010 /NODEFAULTLIB ");
}
