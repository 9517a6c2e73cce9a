use vstd::prelude::*;
use vstd::string::StringSliceAdditionalSpecFns;

verus! {

/// The byte `"`.
pub const QUOTE: u8 = 34;

/// True when `s` holds a double-quote byte.
pub open spec fn contains_quote(s: Seq<u8>) -> bool {
    s.contains(QUOTE)
}

/// The lowercase ASCII hex digit for `n`, for `n < 16`.
pub open spec fn hex_digit(n: u32) -> u8 {
    if n < 10 {
        (48 + n) as u8
    } else {
        (87 + n) as u8
    }
}

/// The `k`-th four-bit group of `v`, counting from the least significant.
pub open spec fn nibble(v: u32, k: int) -> u32 {
    (v >> ((4 * k) as u32)) & 0xf
}

/// The eight hex digits of `v`, zero-padded, most significant first.
pub open spec fn hex8(v: u32) -> Seq<u8> {
    Seq::new(8, |i: int| hex_digit(nibble(v, 7 - i)))
}

/// `0x` followed by the eight hex digits of `v`.
pub open spec fn hex10(v: u32) -> Seq<u8> {
    seq![48u8, 120u8] + hex8(v)
}

/// The values written as by `hex10` and joined by commas.
pub open spec fn hex_list(vals: Seq<u32>) -> Seq<u8>
    decreases vals.len(),
{
    if vals.len() == 0 {
        Seq::empty()
    } else if vals.len() == 1 {
        hex10(vals[0])
    } else {
        hex_list(vals.drop_last()) + seq![44u8] + hex10(vals.last())
    }
}

/// Whether `b` is one of `0123456789abcdef`.
pub open spec fn is_hex_digit(b: u8) -> bool {
    (48 <= b <= 57) || (97 <= b <= 102)
}

/// The value of a lowercase hex digit.
pub open spec fn hex_digit_value(b: u8) -> int {
    if b <= 57 {
        b - 48
    } else {
        b - 87
    }
}

/// The number that a string of hex digits spells, most significant first.
pub open spec fn hex_value(s: Seq<u8>) -> int
    decreases s.len(),
{
    if s.len() == 0 {
        0
    } else {
        hex_value(s.drop_last()) * 16 + hex_digit_value(s.last())
    }
}

proof fn lemma_hex_value_step(s: Seq<u8>, j: int)
    requires
        0 <= j < s.len(),
    ensures
        hex_value(s.subrange(0, j + 1)) == hex_value(s.subrange(0, j)) * 16 + hex_digit_value(s[j]),
{
    assert(s.subrange(0, j + 1).drop_last() =~= s.subrange(0, j));
}

/// The eight digits of `hex8(v)` are lowercase hex digits and spell `v`.
pub proof fn lemma_hex8_spells_value(v: u32)
    ensures
        hex8(v).len() == 8,
        forall|i: int| 0 <= i < 8 ==> is_hex_digit(#[trigger] hex8(v)[i]),
        hex_value(hex8(v)) == v,
{
    let s = hex8(v);
    assert forall|k: int| 0 <= k < 8 implies nibble(v, k) < 16 by {
        let sh = (4 * k) as u32;
        assert((v >> sh) & 0xf < 16) by (bit_vector);
    }
    assert forall|i: int| 0 <= i < 8 implies is_hex_digit(#[trigger] s[i])
        && hex_digit_value(s[i]) == nibble(v, 7 - i) by {
        assert(nibble(v, 7 - i) < 16);
    }
    lemma_hex_value_step(s, 0);
    lemma_hex_value_step(s, 1);
    lemma_hex_value_step(s, 2);
    lemma_hex_value_step(s, 3);
    lemma_hex_value_step(s, 4);
    lemma_hex_value_step(s, 5);
    lemma_hex_value_step(s, 6);
    lemma_hex_value_step(s, 7);
    assert(s.subrange(0, 0) =~= Seq::<u8>::empty());
    assert(s.subrange(0, 8) =~= s);
    assert(v >> 0u32 == v) by (bit_vector);
    let n0 = nibble(v, 0);
    let n1 = nibble(v, 1);
    let n2 = nibble(v, 2);
    let n3 = nibble(v, 3);
    let n4 = nibble(v, 4);
    let n5 = nibble(v, 5);
    let n6 = nibble(v, 6);
    let n7 = nibble(v, 7);
    assert(v == ((((((n7 * 16 + n6) * 16 + n5) * 16 + n4) * 16 + n3) * 16 + n2) * 16 + n1) * 16 + n0)
        by (bit_vector)
        requires
            n0 == v & 0xf,
            n1 == (v >> 4u32) & 0xf,
            n2 == (v >> 8u32) & 0xf,
            n3 == (v >> 12u32) & 0xf,
            n4 == (v >> 16u32) & 0xf,
            n5 == (v >> 20u32) & 0xf,
            n6 == (v >> 24u32) & 0xf,
            n7 == (v >> 28u32) & 0xf,
    ;
}

/// A fixed-capacity byte buffer that is filled from the front, one piece of
/// directive text at a time.
///
/// Directives take the form `/DIRECTIVE:value` or `/DIRECTIVE:value1,value2`;
/// several of them are separated by a space. The bytes past `len` stay zero.
pub struct Buffer<const CAPACITY: usize> {
    pub buffer: [u8; CAPACITY],
    pub len: usize,
}

impl<const CAPACITY: usize> Buffer<CAPACITY> {
    /// The cursor is within the capacity and nothing past it has been written.
    pub open spec fn wf(&self) -> bool {
        &&& self.len <= CAPACITY
        &&& forall|i: int| self.len <= i < CAPACITY ==> self.buffer@[i] == 0
    }

    /// The bytes written so far.
    pub open spec fn written(&self) -> Seq<u8> {
        self.buffer@.subrange(0, self.len as int)
    }

    /// Whether `n` more bytes fit.
    pub open spec fn fits(&self, n: nat) -> bool {
        self.len + n <= CAPACITY
    }

    /// An all-zero buffer with the cursor at the start.
    pub fn new() -> (r: Self)
        ensures
            r.wf(),
            r.len == 0,
            r.buffer@ == Seq::new(CAPACITY as nat, |i: int| 0u8),
    {
        let r = Self { buffer: [0u8; CAPACITY], len: 0 };
        assert(r.buffer@ =~= Seq::new(CAPACITY as nat, |i: int| 0u8));
        r
    }

    /// Appends `/` and the directive's name.
    pub fn push_directive(self, argument: &str) -> (r: Self)
        requires
            self.wf(),
            self.fits(1 + argument.spec_bytes().len()),
        ensures
            r.wf(),
            r.written() == self.written() + seq![47u8] + argument.spec_bytes(),
            r.len == self.len + 1 + argument.spec_bytes().len(),
    {
        self.push(&[47u8]).push(argument.as_bytes())
    }

    /// Appends `:` and the value.
    pub fn push_value(self, value: &str) -> (r: Self)
        requires
            self.wf(),
            self.fits(1 + value.spec_bytes().len()),
        ensures
            r.wf(),
            r.written() == self.written() + seq![58u8] + value.spec_bytes(),
            r.len == self.len + 1 + value.spec_bytes().len(),
    {
        self.push(&[58u8]).push(value.as_bytes())
    }

    /// Appends `:` and the values, each as `0x` and eight hex digits, joined
    /// by commas. Nothing is written for an empty list.
    pub fn push_values_hex(self, values: &[u32]) -> (r: Self)
        requires
            self.wf(),
            values@.len() > 0 ==> self.fits(11 * values@.len()),
        ensures
            r.wf(),
            values@.len() == 0 ==> r == self,
            values@.len() > 0 ==> r.written() == self.written() + seq![58u8] + hex_list(values@),
            values@.len() > 0 ==> r.len == self.len + 11 * values@.len(),
    {
        if values.len() == 0 {
            return self;
        }
        let ghost vals = values@;
        let mut index: usize = 0;
        let mut this = self.push(&[58u8]);
        while index < values.len() - 1
            invariant
                vals == values@,
                vals.len() > 0,
                index < vals.len(),
                this.wf(),
                self.len + 11 * vals.len() <= CAPACITY,
                this.len == self.len + 1 + 11 * index,
                this.written() == self.written() + seq![58u8] + hex_list(vals.subrange(0, index as int)) + (
                if index > 0 {
                    seq![44u8]
                } else {
                    Seq::empty()
                }),
            decreases vals.len() - index,
        {
            let hex = to_hex_u32(values[index]);
            this = this.push(&hex).push(&[44u8]);
            proof {
                let next = vals.subrange(0, index + 1);
                assert(next.drop_last() =~= vals.subrange(0, index as int));
                if index == 0 {
                    assert(hex_list(next) == hex10(vals[0]));
                    assert(Seq::<u8>::empty() + hex10(vals[0]) =~= hex10(vals[0]));
                }
            }
            index += 1;
        }
        let hex = to_hex_u32(values[index]);
        let r = this.push(&hex);
        proof {
            assert(vals.subrange(0, vals.len() as int) =~= vals);
            assert(vals.subrange(0, vals.len() as int).drop_last() =~= vals.subrange(0, index as int));
            if index == 0 {
                assert(Seq::<u8>::empty() + hex10(vals[0]) =~= hex10(vals[0]));
            }
        }
        r
    }

    /// Appends `:` and `value` as `0x` and eight hex digits.
    pub fn push_value_hex(self, value: u32) -> (r: Self)
        requires
            self.wf(),
            self.fits(11),
        ensures
            r.wf(),
            r.written() == self.written() + seq![58u8] + hex10(value),
            r.len == self.len + 11,
    {
        let hex = to_hex_u32(value);
        self.push(&[58u8]).push(&hex)
    }

    /// Appends `:` and `value` between double quotes. A value that holds a
    /// double quote itself is left out: nothing is written.
    pub fn push_value_quoted(self, value: &str) -> (r: Self)
        requires
            self.wf(),
            !contains_quote(value.spec_bytes()) ==> self.fits(3 + value.spec_bytes().len()),
        ensures
            r.wf(),
            contains_quote(value.spec_bytes()) ==> r == self,
            !contains_quote(value.spec_bytes()) ==> r.written() == self.written() + seq![58u8, QUOTE]
                + value.spec_bytes() + seq![QUOTE],
            !contains_quote(value.spec_bytes()) ==> r.len == self.len + 3 + value.spec_bytes().len(),
    {
        if !has_quote(value.as_bytes()) {
            self.push(&[58u8, QUOTE]).push(value.as_bytes()).push(&[QUOTE])
        } else {
            self
        }
    }

    /// Appends a separator.
    pub fn push_seperator(self) -> (r: Self)
        requires
            self.wf(),
            self.fits(1),
        ensures
            r.wf(),
            r.written() == self.written() + seq![32u8],
            r.len == self.len + 1,
    {
        self.push(&[32u8])
    }

    /// Appends `src` at the cursor and moves the cursor past it.
    pub fn push(self, src: &[u8]) -> (r: Self)
        requires
            self.wf(),
            self.fits(src@.len()),
        ensures
            r.wf(),
            r.written() == self.written() + src@,
            r.len == self.len + src@.len(),
    {
        let mut this = self;
        let offset = this.len;
        let mut i: usize = 0;
        while i < src.len()
            invariant
                this.len == offset + i,
                i <= src@.len(),
                offset + src@.len() <= CAPACITY,
                this.buffer@.len() == CAPACITY,
                this.written() == self.written() + src@.subrange(0, i as int),
                forall|j: int| this.len <= j < CAPACITY ==> this.buffer@[j] == 0,
            decreases src@.len() - i,
        {
            let ghost before = this.written();
            this.buffer[this.len] = src[i];
            this.len = this.len + 1;
            i = i + 1;
            assert(this.written() =~= before.push(src@[i - 1]));
            assert(src@.subrange(0, i as int) =~= src@.subrange(0, i - 1).push(src@[i - 1]));
        }
        assert(src@.subrange(0, i as int) =~= src@);
        this
    }
}

/// Whether `s` holds a double-quote byte.
pub fn has_quote(s: &[u8]) -> (r: bool)
    ensures
        r == contains_quote(s@),
{
    let mut index: usize = 0;
    while index < s.len()
        invariant
            index <= s@.len(),
            forall|j: int| 0 <= j < index ==> s@[j] != QUOTE,
        decreases s@.len() - index,
    {
        if s[index] == QUOTE {
            assert(s@[index as int] == QUOTE);
            return true;
        }
        index += 1;
    }
    false
}

/// Renders `val` as `0x` and eight lowercase hex digits.
pub fn to_hex_u32(val: u32) -> (r: [u8; 10])
    ensures
        r@ == hex10(val),
{
    let ghost orig = val;
    let mut val = val;
    let mut bytes: [u8; 10] = [48u8; 10];
    bytes[1] = 120u8;
    let lookup: [u8; 16] = [
        48u8, 49, 50, 51, 52, 53, 54, 55, 56, 57, 97, 98, 99, 100, 101, 102,
    ];
    assert(forall|k: u32| k < 16 ==> lookup@[k as int] == hex_digit(k));
    let mut index: usize = 9;
    assert(orig >> 0u32 == orig) by (bit_vector);
    while index > 1
        invariant
            1 <= index <= 9,
            bytes@.len() == 10,
            bytes@[0] == 48u8,
            bytes@[1] == 120u8,
            val == orig >> ((4 * (9 - index)) as u32),
            forall|j: int| index < j < 10 ==> bytes@[j] == hex_digit(nibble(orig, 9 - j)),
            forall|k: u32| k < 16 ==> lookup@[k as int] == hex_digit(k),
        decreases index,
    {
        let d = val & 0xf;
        assert(d < 16) by (bit_vector)
            requires
                d == val & 0xf,
        ;
        bytes[index] = lookup[d as usize];
        let ghost sh = (4 * (9 - index)) as u32;
        assert((orig >> sh) >> 4u32 == orig >> ((sh + 4) as u32)) by (bit_vector)
            requires
                sh <= 28,
        ;
        val = val >> 4u32;
        index -= 1;
    }
    assert(bytes@ =~= hex10(orig));
    bytes
}

} // verus!
