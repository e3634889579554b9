//! The two bit-level codecs of a k-mer record: packed nucleotides and edge
//! masks.

use vstd::prelude::*;

verus! {

/// The nucleotide that a two-bit code stands for.
pub open spec fn symbol(code: u64) -> char {
    if code == 0 {
        'A'
    } else if code == 1 {
        'C'
    } else if code == 2 {
        'G'
    } else {
        'T'
    }
}

/// The `i`-th nucleotide of a packed word, counted from the most
/// significant pair of bits.
pub open spec fn base_at(word: u64, i: int) -> char {
    symbol((word >> ((62 - 2 * i) as u64)) & 3)
}

/// Whether `c` is one of the four nucleotides.
pub open spec fn is_base(c: char) -> bool {
    c == 'A' || c == 'C' || c == 'G' || c == 'T'
}

/// The 32 nucleotides of a packed word.
pub open spec fn bases(word: u64) -> Seq<char> {
    Seq::new(32, |i: int| base_at(word, i))
}

/// Whether `mask` has the bit `bit` set.
pub open spec fn has(mask: u8, bit: u8) -> bool {
    mask & bit != 0
}

/// The one base, or none.
pub open spec fn pick(present: bool, base: char) -> Seq<char> {
    if present {
        seq![base]
    } else {
        Seq::empty()
    }
}

/// The bases that an edge mask names as following the k-mer: bits 0 to 3
/// stand for A, C, G, T.
pub open spec fn outgoing(mask: u8) -> Seq<char> {
    pick(has(mask, 0x01), 'A') + pick(has(mask, 0x02), 'C') + pick(has(mask, 0x04), 'G') + pick(
        has(mask, 0x08),
        'T',
    )
}

/// The bases that an edge mask names as preceding the k-mer: bits 4 to 7
/// stand for T, G, C, A, the order of the low half turned round.
pub open spec fn incoming(mask: u8) -> Seq<char> {
    pick(has(mask, 0x10), 'T') + pick(has(mask, 0x20), 'G') + pick(has(mask, 0x40), 'C') + pick(
        has(mask, 0x80),
        'A',
    )
}

/// The nucleotide in the two most significant bits of `b`.
pub fn nu(b: u64) -> (c: char)
    ensures
        c == symbol(b >> 62),
        is_base(c),
{
    assert(b < 0x4000_0000_0000_0000 <==> b >> 62 == 0) by (bit_vector);
    assert(0x4000_0000_0000_0000 <= b < 0x8000_0000_0000_0000 <==> b >> 62 == 1) by (bit_vector);
    assert(0x8000_0000_0000_0000 <= b < 0xc000_0000_0000_0000 <==> b >> 62 == 2) by (bit_vector);
    if b < 0x4000_0000_0000_0000 {
        'A'
    } else if b < 0x8000_0000_0000_0000 {
        'C'
    } else if b < 0xc000_0000_0000_0000 {
        'G'
    } else {
        'T'
    }
}

/// `String::push`: the character is added at the end.
#[verifier::external_body]
fn push_char(text: &mut String, c: char)
    ensures
        final(text)@ == old(text)@.push(c),
{
    text.push(c)
}

/// Decodes a packed word into its 32 nucleotides.
pub fn nucleotides(word: u64) -> (text: String)
    ensures
        text@ == bases(word),
        text@.len() == 32,
        forall|i: int| 0 <= i < 32 ==> is_base(#[trigger] text@[i]),
{
    let mut text = String::new();
    let mut i: u64 = 0;
    while i < 32
        invariant
            i <= 32,
            text@ == Seq::new(i as nat, |k: int| base_at(word, k)),
        decreases 32 - i,
    {
        assert((word << (2 * i)) >> 62 == (word >> ((62 - 2 * i) as u64)) & 3) by (bit_vector)
            requires
                i < 32,
        ;
        let c = nu(word << (2 * i));
        push_char(&mut text, c);
        i += 1;
    }
    text
}

/// Adds `base` to `set` where `present` says so.
fn add_if(set: &mut Vec<char>, present: bool, base: char)
    ensures
        final(set)@ == old(set)@ + pick(present, base),
{
    if present {
        set.push(base);
    }
}

/// Decodes an edge mask into the bases before and the bases after the
/// k-mer, in that order.
pub fn edges(mask: u8) -> (sets: (Vec<char>, Vec<char>))
    ensures
        sets.0@ == incoming(mask),
        sets.1@ == outgoing(mask),
{
    let mut before: Vec<char> = Vec::new();
    let mut after: Vec<char> = Vec::new();
    add_if(&mut after, mask & 0x01 != 0, 'A');
    add_if(&mut after, mask & 0x02 != 0, 'C');
    add_if(&mut after, mask & 0x04 != 0, 'G');
    add_if(&mut after, mask & 0x08 != 0, 'T');
    add_if(&mut before, mask & 0x10 != 0, 'T');
    add_if(&mut before, mask & 0x20 != 0, 'G');
    add_if(&mut before, mask & 0x40 != 0, 'C');
    add_if(&mut before, mask & 0x80 != 0, 'A');
    (before, after)
}

} // verus!
