use vstd::prelude::*;
use vstd::string::StringSliceAdditionalSpecFns;

use crate::buffer::contains_quote;
use crate::msvc::{
    lemma_default_lib_len, lemma_no_default_lib_len, lemma_raw_len, lemma_stack_size_len,
    lemma_stack_size_with_commit_len, default_lib_text, disable_all_default_libs_text, no_default_lib_text, raw_text,
    stack_text, stack_with_commit_text, ArgSize, LinkArgs,
};

verus! {

/// One linker directive.
#[allow(inconsistent_fields)]
pub enum Directive<'a> {
    /// Reserve `reserve` bytes of virtual memory for the stack.
    StackSize { reserve: u32 },
    /// As `StackSize`, and commit `commit` bytes of it when the program starts.
    StackSizeWithCommit { reserve: u32, commit: u32 },
    /// Add a library to the default search set.
    DefaultLib { name: &'a str },
    /// Keep one named library, or all of them, out of the default search set.
    NoDefaultLib { name: Option<&'a str> },
    /// Directive text taken as it is.
    Raw { text: &'a str },
}

impl<'a> Directive<'a> {
    /// The canonical text of the directive, separator included.
    pub open spec fn text(&self) -> Seq<u8> {
        match *self {
            Directive::StackSize { reserve } => stack_text(reserve),
            Directive::StackSizeWithCommit { reserve, commit } => stack_with_commit_text(
                reserve,
                commit,
            ),
            Directive::DefaultLib { name } => default_lib_text(name.spec_bytes()),
            Directive::NoDefaultLib { name: Some(name) } => no_default_lib_text(name.spec_bytes()),
            Directive::NoDefaultLib { name: None } => disable_all_default_libs_text(),
            Directive::Raw { text } => raw_text(text.spec_bytes()),
        }
    }

    /// The size table: the number of bytes the directive occupies, by its
    /// shape alone. A name that holds a double quote occupies nothing.
    pub open spec fn size_spec(&self) -> nat {
        match *self {
            Directive::StackSize { .. } => 18,
            Directive::StackSizeWithCommit { .. } => 29,
            Directive::DefaultLib { name } => if contains_quote(name.spec_bytes()) {
                0
            } else {
                15 + name.spec_bytes().len()
            },
            Directive::NoDefaultLib { name: Some(name) } => if contains_quote(name.spec_bytes()) {
                0
            } else {
                17 + name.spec_bytes().len()
            },
            Directive::NoDefaultLib { name: None } => 14,
            Directive::Raw { text } => text.spec_bytes().len() + 1,
        }
    }

    /// The number of bytes the directive occupies.
    pub fn size_of(&self) -> (r: usize)
        requires
            self.size_spec() <= usize::MAX,
        ensures
            r == self.size_spec(),
    {
        match *self {
            Directive::StackSize { .. } => ArgSize::STACK_SIZE,
            Directive::StackSizeWithCommit { .. } => ArgSize::STACK_SIZE_WITH_COMMIT,
            Directive::DefaultLib { name } => ArgSize::default_lib(name),
            Directive::NoDefaultLib { name: Some(name) } => ArgSize::no_default_lib(name),
            Directive::NoDefaultLib { name: None } => ArgSize::DISABLE_ALL_DEFAULT_LIBS,
            Directive::Raw { text } => text.len() + 1,
        }
    }
}

/// The texts of the directives, concatenated in order.
pub open spec fn render_all(directives: Seq<Directive>) -> Seq<u8>
    decreases directives.len(),
{
    if directives.len() == 0 {
        Seq::empty()
    } else {
        render_all(directives.drop_last()) + directives.last().text()
    }
}

/// The sum of the sizes of the directives.
pub open spec fn total_size_spec(directives: Seq<Directive>) -> nat
    decreases directives.len(),
{
    if directives.len() == 0 {
        0
    } else {
        total_size_spec(directives.drop_last()) + directives.last().size_spec()
    }
}

/// The size table and the rendering agree: every directive's text is exactly
/// as long as the size that the table gives for it.
pub proof fn lemma_size_matches_text(d: Directive)
    ensures
        d.text().len() == d.size_spec(),
{
    match d {
        Directive::StackSize { reserve } => lemma_stack_size_len(reserve),
        Directive::StackSizeWithCommit { reserve, commit } => lemma_stack_size_with_commit_len(
            reserve,
            commit,
        ),
        Directive::DefaultLib { name } => lemma_default_lib_len(name.spec_bytes()),
        Directive::NoDefaultLib { name: Some(name) } => lemma_no_default_lib_len(name.spec_bytes()),
        Directive::NoDefaultLib { name: None } => lemma_no_default_lib_len(Seq::empty()),
        Directive::Raw { text } => lemma_raw_len(text.spec_bytes()),
    }
}

/// The text of a list of directives is exactly as long as the sum of their
/// sizes: a buffer sized by the table is filled to the last byte.
pub proof fn lemma_assembled_size(directives: Seq<Directive>)
    ensures
        render_all(directives).len() == total_size_spec(directives),
    decreases directives.len(),
{
    if directives.len() > 0 {
        lemma_assembled_size(directives.drop_last());
        lemma_size_matches_text(directives.last());
    }
}

/// Rendering keeps the order of the input: the text of two lists one after
/// the other is the text of the first followed by the text of the second.
pub proof fn lemma_render_concat(first: Seq<Directive>, second: Seq<Directive>)
    ensures
        render_all(first + second) == render_all(first) + render_all(second),
    decreases second.len(),
{
    if second.len() == 0 {
        assert(first + second =~= first);
        assert(render_all(first) + Seq::<u8>::empty() =~= render_all(first));
    } else {
        lemma_render_concat(first, second.drop_last());
        assert((first + second).drop_last() =~= first + second.drop_last());
        assert((first + second).last() == second.last());
    }
}

/// Two directives render as the text of the first followed by that of the
/// second, in whichever order they are given.
pub proof fn lemma_render_pair(a: Directive, b: Directive)
    ensures
        render_all(seq![a, b]) == a.text() + b.text(),
        render_all(seq![b, a]) == b.text() + a.text(),
{
    lemma_render_single(a);
    lemma_render_single(b);
    lemma_render_concat(seq![a], seq![b]);
    lemma_render_concat(seq![b], seq![a]);
    assert(seq![a] + seq![b] =~= seq![a, b]);
    assert(seq![b] + seq![a] =~= seq![b, a]);
}

proof fn lemma_render_single(d: Directive)
    ensures
        render_all(seq![d]) == d.text(),
{
    let one = seq![d];
    assert(one.len() == 1);
    assert(one.last() == d);
    assert(one.drop_last() =~= Seq::<Directive>::empty());
    assert(render_all(one.drop_last()) == Seq::<u8>::empty());
    assert(Seq::<u8>::empty() + d.text() =~= d.text());
    assert(render_all(one) == render_all(one.drop_last()) + one.last().text());
}

impl<const CAPACITY: usize> LinkArgs<CAPACITY> {
    /// Appends one directive.
    pub fn append(self, directive: &Directive) -> (r: Self)
        requires
            self@.len() + directive.text().len() <= CAPACITY,
        ensures
            r@ == self@ + directive.text(),
    {
        proof {
            lemma_size_matches_text(*directive);
        }
        match *directive {
            Directive::StackSize { reserve } => self.stack_size(reserve),
            Directive::StackSizeWithCommit { reserve, commit } => self.stack_size_with_commit(
                reserve,
                commit,
            ),
            Directive::DefaultLib { name } => self.default_lib(name),
            Directive::NoDefaultLib { name: Some(name) } => self.no_default_lib(name),
            Directive::NoDefaultLib { name: None } => self.disable_all_default_libs(),
            Directive::Raw { text } => self.raw(text),
        }
    }
}

/// The number of bytes the directives occupy together.
pub fn total_size(directives: &[Directive]) -> (r: usize)
    requires
        total_size_spec(directives@) <= usize::MAX,
    ensures
        r == total_size_spec(directives@),
{
    let mut total: usize = 0;
    let mut i: usize = 0;
    while i < directives.len()
        invariant
            i <= directives@.len(),
            total == total_size_spec(directives@.subrange(0, i as int)),
            total_size_spec(directives@) <= usize::MAX,
        decreases directives@.len() - i,
    {
        proof {
            lemma_total_size_prefix(directives@, i as int + 1);
            assert(directives@.subrange(0, i + 1).drop_last() =~= directives@.subrange(0, i as int));
        }
        total = total + directives[i].size_of();
        i = i + 1;
    }
    assert(directives@.subrange(0, i as int) =~= directives@);
    total
}

/// The sizes of a prefix of the directives sum to no more than those of all.
proof fn lemma_total_size_prefix(directives: Seq<Directive>, n: int)
    requires
        0 <= n <= directives.len(),
    ensures
        total_size_spec(directives.subrange(0, n)) <= total_size_spec(directives),
    decreases directives.len() - n,
{
    if n < directives.len() {
        lemma_total_size_prefix(directives, n + 1);
        assert(directives.subrange(0, n + 1).drop_last() =~= directives.subrange(0, n));
    } else {
        assert(directives.subrange(0, n) =~= directives);
    }
}

/// Sizes a buffer of `CAPACITY` bytes by the directives and fills it with
/// their texts in order; what is left over stays zero.
pub fn assemble<const CAPACITY: usize>(directives: &[Directive]) -> (r: [u8; CAPACITY])
    requires
        total_size_spec(directives@) <= CAPACITY,
    ensures
        r@ == render_all(directives@) + Seq::new(
            (CAPACITY - total_size_spec(directives@)) as nat,
            |i: int| 0u8,
        ),
{
    let mut args: LinkArgs<CAPACITY> = LinkArgs::new();
    let mut i: usize = 0;
    while i < directives.len()
        invariant
            i <= directives@.len(),
            args@ == render_all(directives@.subrange(0, i as int)),
            total_size_spec(directives@) <= CAPACITY,
        decreases directives@.len() - i,
    {
        proof {
            let next = directives@.subrange(0, i + 1);
            assert(next.drop_last() =~= directives@.subrange(0, i as int));
            lemma_total_size_prefix(directives@, i + 1);
            lemma_assembled_size(next);
        }
        args = args.append(&directives[i]);
        i = i + 1;
    }
    proof {
        assert(directives@.subrange(0, i as int) =~= directives@);
        lemma_assembled_size(directives@);
    }
    args.into_array()
}

} // verus!
