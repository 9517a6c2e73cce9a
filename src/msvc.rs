use vstd::prelude::*;
use vstd::string::StringSliceAdditionalSpecFns;

use crate::buffer::{contains_quote, has_quote, hex10, hex8, hex_list, Buffer, QUOTE};

verus! {

broadcast use vstd::string::is_ascii_spec_bytes;

/// `/STACK:0xRRRRRRRR `, with `reserve` as eight lowercase hex digits.
pub open spec fn stack_text(reserve: u32) -> Seq<u8> {
    "/STACK:0x".spec_bytes() + hex8(reserve) + " ".spec_bytes()
}

/// `/STACK:0xRRRRRRRR,0xCCCCCCCC `.
pub open spec fn stack_with_commit_text(reserve: u32, commit: u32) -> Seq<u8> {
    "/STACK:0x".spec_bytes() + hex8(reserve) + ",0x".spec_bytes() + hex8(commit) + " ".spec_bytes()
}

/// `/DEFAULTLIB:"lib" `; nothing at all when `lib` holds a double quote.
pub open spec fn default_lib_text(lib: Seq<u8>) -> Seq<u8> {
    if contains_quote(lib) {
        Seq::empty()
    } else {
        "/DEFAULTLIB:\"".spec_bytes() + lib + "\" ".spec_bytes()
    }
}

/// `/NODEFAULTLIB:"lib" `; nothing at all when `lib` holds a double quote.
pub open spec fn no_default_lib_text(lib: Seq<u8>) -> Seq<u8> {
    if contains_quote(lib) {
        Seq::empty()
    } else {
        "/NODEFAULTLIB:\"".spec_bytes() + lib + "\" ".spec_bytes()
    }
}

/// `/NODEFAULTLIB `.
pub open spec fn disable_all_default_libs_text() -> Seq<u8> {
    "/NODEFAULTLIB ".spec_bytes()
}

/// The raw text followed by one space.
pub open spec fn raw_text(raw: Seq<u8>) -> Seq<u8> {
    raw + " ".spec_bytes()
}

/// Byte lengths of the directives, separator included.
pub struct ArgSize;

impl ArgSize {
    /// The size of the `STACK` directive with a `reserve` value.
    pub const STACK_SIZE: usize = 18;

    /// The size of the `STACK` directive with `reserve` and `commit` values.
    pub const STACK_SIZE_WITH_COMMIT: usize = 29;

    /// The size of the `NODEFAULTLIB` directive without a value.
    pub const DISABLE_ALL_DEFAULT_LIBS: usize = 14;

    /// The size of the `DEFAULTLIB` directive: 15 bytes around the name, or
    /// nothing for a name that holds a double quote.
    pub fn default_lib(lib: &str) -> (r: usize)
        requires
            !contains_quote(lib.spec_bytes()) ==> lib.spec_bytes().len() + 15 <= usize::MAX,
        ensures
            contains_quote(lib.spec_bytes()) ==> r == 0,
            !contains_quote(lib.spec_bytes()) ==> r == 15 + lib.spec_bytes().len(),
    {
        if has_quote(lib.as_bytes()) {
            0
        } else {
            15 + lib.len()
        }
    }

    /// The size of the `NODEFAULTLIB` directive with a value: 17 bytes around
    /// the name, or nothing for a name that holds a double quote.
    pub fn no_default_lib(lib: &str) -> (r: usize)
        requires
            !contains_quote(lib.spec_bytes()) ==> lib.spec_bytes().len() + 17 <= usize::MAX,
        ensures
            contains_quote(lib.spec_bytes()) ==> r == 0,
            !contains_quote(lib.spec_bytes()) ==> r == 17 + lib.spec_bytes().len(),
    {
        if has_quote(lib.as_bytes()) {
            0
        } else {
            17 + lib.len()
        }
    }
}

proof fn lemma_stack_literals()
    ensures
        "STACK".spec_bytes().len() == 5,
        "/STACK:0x".spec_bytes() == seq![47u8] + "STACK".spec_bytes() + seq![58u8, 48u8, 120u8],
        ",0x".spec_bytes() == seq![44u8, 48u8, 120u8],
        " ".spec_bytes() == seq![32u8],
{
    reveal_strlit("STACK");
    assert(vstd::string::is_ascii("STACK"));
    reveal_strlit("/STACK:0x");
    assert(vstd::string::is_ascii("/STACK:0x"));
    reveal_strlit(",0x");
    assert(vstd::string::is_ascii(",0x"));
    reveal_strlit(" ");
    assert(vstd::string::is_ascii(" "));
    assert("/STACK:0x".spec_bytes() =~= seq![47u8] + "STACK".spec_bytes() + seq![58u8, 48u8, 120u8]);
    assert(",0x".spec_bytes() =~= seq![44u8, 48u8, 120u8]);
    assert(" ".spec_bytes() =~= seq![32u8]);
}

proof fn lemma_default_lib_literals()
    ensures
        "DEFAULTLIB".spec_bytes().len() == 10,
        "/DEFAULTLIB:\"".spec_bytes() == seq![47u8] + "DEFAULTLIB".spec_bytes() + seq![58u8, QUOTE],
        "\" ".spec_bytes() == seq![QUOTE, 32u8],
{
    reveal_strlit("DEFAULTLIB");
    assert(vstd::string::is_ascii("DEFAULTLIB"));
    reveal_strlit("/DEFAULTLIB:\"");
    assert(vstd::string::is_ascii("/DEFAULTLIB:\""));
    reveal_strlit("\" ");
    assert(vstd::string::is_ascii("\" "));
    assert("/DEFAULTLIB:\"".spec_bytes() =~= seq![47u8] + "DEFAULTLIB".spec_bytes() + seq![58u8, QUOTE]);
    assert("\" ".spec_bytes() =~= seq![QUOTE, 32u8]);
}

proof fn lemma_no_default_lib_literals()
    ensures
        "NODEFAULTLIB".spec_bytes().len() == 12,
        "/NODEFAULTLIB:\"".spec_bytes() == seq![47u8] + "NODEFAULTLIB".spec_bytes() + seq![58u8, QUOTE],
        "/NODEFAULTLIB ".spec_bytes() == seq![47u8] + "NODEFAULTLIB".spec_bytes() + seq![32u8],
        "\" ".spec_bytes() == seq![QUOTE, 32u8],
        " ".spec_bytes() == seq![32u8],
{
    reveal_strlit("NODEFAULTLIB");
    assert(vstd::string::is_ascii("NODEFAULTLIB"));
    reveal_strlit("/NODEFAULTLIB:\"");
    assert(vstd::string::is_ascii("/NODEFAULTLIB:\""));
    reveal_strlit("/NODEFAULTLIB ");
    assert(vstd::string::is_ascii("/NODEFAULTLIB "));
    reveal_strlit("\" ");
    assert(vstd::string::is_ascii("\" "));
    reveal_strlit(" ");
    assert(vstd::string::is_ascii(" "));
    assert("/NODEFAULTLIB:\"".spec_bytes() =~= seq![47u8] + "NODEFAULTLIB".spec_bytes() + seq![58u8, QUOTE]);
    assert("/NODEFAULTLIB ".spec_bytes() =~= seq![47u8] + "NODEFAULTLIB".spec_bytes() + seq![32u8]);
    assert("\" ".spec_bytes() =~= seq![QUOTE, 32u8]);
    assert(" ".spec_bytes() =~= seq![32u8]);
}

/// Every `STACK` directive with a reserve value takes `ArgSize::STACK_SIZE`
/// bytes, whatever the value.
pub proof fn lemma_stack_size_len(reserve: u32)
    ensures
        stack_text(reserve).len() == ArgSize::STACK_SIZE,
{
    lemma_stack_literals();
}

/// Every `STACK` directive with reserve and commit values takes
/// `ArgSize::STACK_SIZE_WITH_COMMIT` bytes, whatever the values.
pub proof fn lemma_stack_size_with_commit_len(reserve: u32, commit: u32)
    ensures
        stack_with_commit_text(reserve, commit).len() == ArgSize::STACK_SIZE_WITH_COMMIT,
{
    lemma_stack_literals();
}

/// A `DEFAULTLIB` directive takes 15 bytes more than its name, and none at all
/// when the name holds a double quote.
pub proof fn lemma_default_lib_len(lib: Seq<u8>)
    ensures
        !contains_quote(lib) ==> default_lib_text(lib).len() == 15 + lib.len(),
        contains_quote(lib) ==> default_lib_text(lib).len() == 0,
{
    lemma_default_lib_literals();
}

/// A `NODEFAULTLIB` directive with a name takes 17 bytes more than the name,
/// and none at all when the name holds a double quote; without a name it takes
/// `ArgSize::DISABLE_ALL_DEFAULT_LIBS` bytes.
pub proof fn lemma_no_default_lib_len(lib: Seq<u8>)
    ensures
        !contains_quote(lib) ==> no_default_lib_text(lib).len() == 17 + lib.len(),
        contains_quote(lib) ==> no_default_lib_text(lib).len() == 0,
        disable_all_default_libs_text().len() == ArgSize::DISABLE_ALL_DEFAULT_LIBS,
{
    lemma_no_default_lib_literals();
}

/// Raw text takes one byte more than itself.
pub proof fn lemma_raw_len(raw: Seq<u8>)
    ensures
        raw_text(raw).len() == raw.len() + 1,
{
    lemma_stack_literals();
}

/// Builds the directive text for the MSVC linker in a buffer of `CAPACITY`
/// bytes. Each method appends one directive; one that would not fit cannot be
/// called.
pub struct LinkArgs<const CAPACITY: usize> {
    buffer: Buffer<CAPACITY>,
}

impl<const CAPACITY: usize> View for LinkArgs<CAPACITY> {
    type V = Seq<u8>;

    /// The directive text written so far.
    closed spec fn view(&self) -> Seq<u8> {
        self.buffer.written()
    }
}

impl<const CAPACITY: usize> LinkArgs<CAPACITY> {
    #[verifier::type_invariant]
    spec fn inv(&self) -> bool {
        self.buffer.wf()
    }

    /// The `STACK` directive: `reserve` bytes of virtual memory for the stack.
    pub fn stack_size(self, reserve: u32) -> (r: Self)
        requires
            self@.len() + ArgSize::STACK_SIZE <= CAPACITY,
        ensures
            r@ == self@ + stack_text(reserve),
    {
        proof {
            use_type_invariant(&self);
            lemma_stack_literals();
        }
        let buffer = self.buffer.push_directive("STACK").push_value_hex(reserve).push_seperator();
        LinkArgs { buffer }
    }

    /// The `STACK` directive with a `commit` value: the bytes of physical
    /// memory given to the stack when the program starts.
    pub fn stack_size_with_commit(self, reserve: u32, commit: u32) -> (r: Self)
        requires
            self@.len() + ArgSize::STACK_SIZE_WITH_COMMIT <= CAPACITY,
        ensures
            r@ == self@ + stack_with_commit_text(reserve, commit),
    {
        proof {
            use_type_invariant(&self);
            lemma_stack_literals();
        }
        let buffer = self.buffer.push_directive("STACK").push_values_hex(&[reserve, commit]).push_seperator();
        proof {
            let vals = seq![reserve, commit];
            assert(vals.drop_last() =~= seq![reserve]);
            assert(hex_list(seq![reserve]) == hex10(reserve));
            assert(hex_list(vals) == hex10(reserve) + seq![44u8] + hex10(commit));
        }
        LinkArgs { buffer }
    }

    /// The `DEFAULTLIB` directive: adds a library to search. A name that holds
    /// a double quote is left out and nothing is written.
    pub fn default_lib(self, lib: &str) -> (r: Self)
        requires
            self@.len() + default_lib_text(lib.spec_bytes()).len() <= CAPACITY,
        ensures
            r@ == self@ + default_lib_text(lib.spec_bytes()),
    {
        proof {
            use_type_invariant(&self);
            lemma_default_lib_literals();
        }
        if has_quote(lib.as_bytes()) {
            assert(self@ + default_lib_text(lib.spec_bytes()) =~= self@);
            return self;
        }
        let buffer = self.buffer.push_directive("DEFAULTLIB").push_value_quoted(lib).push_seperator();
        LinkArgs { buffer }
    }

    /// The `NODEFAULTLIB` directive with a name: keeps a default library out.
    /// A name that holds a double quote is left out and nothing is written.
    pub fn no_default_lib(self, lib: &str) -> (r: Self)
        requires
            self@.len() + no_default_lib_text(lib.spec_bytes()).len() <= CAPACITY,
        ensures
            r@ == self@ + no_default_lib_text(lib.spec_bytes()),
    {
        proof {
            use_type_invariant(&self);
            lemma_no_default_lib_literals();
        }
        if has_quote(lib.as_bytes()) {
            assert(self@ + no_default_lib_text(lib.spec_bytes()) =~= self@);
            return self;
        }
        let buffer = self.buffer.push_directive("NODEFAULTLIB").push_value_quoted(lib).push_seperator();
        LinkArgs { buffer }
    }

    /// The `NODEFAULTLIB` directive without a name: no default library is used.
    pub fn disable_all_default_libs(self) -> (r: Self)
        requires
            self@.len() + ArgSize::DISABLE_ALL_DEFAULT_LIBS <= CAPACITY,
        ensures
            r@ == self@ + disable_all_default_libs_text(),
    {
        proof {
            use_type_invariant(&self);
            lemma_no_default_lib_literals();
        }
        let buffer = self.buffer.push_directive("NODEFAULTLIB").push_seperator();
        LinkArgs { buffer }
    }

    /// Raw directive text, copied as it is and followed by a space.
    pub fn raw(self, raw: &str) -> (r: Self)
        requires
            self@.len() + raw.spec_bytes().len() + 1 <= CAPACITY,
        ensures
            r@ == self@ + raw_text(raw.spec_bytes()),
    {
        proof {
            use_type_invariant(&self);
            lemma_stack_literals();
        }
        let buffer = self.buffer.push(raw.as_bytes()).push_seperator();
        LinkArgs { buffer }
    }

    /// An empty argument list.
    pub fn new() -> (r: Self)
        ensures
            r@ == Seq::<u8>::empty(),
    {
        let r = LinkArgs { buffer: Buffer::new() };
        assert(r@ =~= Seq::<u8>::empty());
        r
    }

    /// The length in bytes of the text written so far.
    pub fn len(&self) -> (r: usize)
        ensures
            r == self@.len(),
            r <= CAPACITY,
    {
        proof {
            use_type_invariant(self);
        }
        self.buffer.len
    }

    /// The whole buffer: the text written so far, then zero bytes up to
    /// `CAPACITY`.
    pub fn into_array(self) -> (r: [u8; CAPACITY])
        ensures
            r@ == self@ + Seq::new((CAPACITY - self@.len()) as nat, |i: int| 0u8),
            self@.len() <= CAPACITY,
    {
        proof {
            use_type_invariant(&self);
        }
        let r = self.buffer.buffer;
        assert(r@ =~= self@ + Seq::new((CAPACITY - self@.len()) as nat, |i: int| 0u8));
        r
    }
}

} // verus!
