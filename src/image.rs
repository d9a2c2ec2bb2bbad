use vstd::prelude::*;

verus! {

/// The word whose big-endian bytes are `b0 b1 b2 b3`.
pub open spec fn be_word(b0: u8, b1: u8, b2: u8, b3: u8) -> u32 {
    (b0 as int * 0x0100_0000 + b1 as int * 0x01_0000 + b2 as int * 0x100 + b3 as int) as u32
}

/// The byte at `i`, or 0 past the end of `bytes`.
pub open spec fn byte_or_zero(bytes: Seq<u8>, i: int) -> u8 {
    if i < bytes.len() {
        bytes[i]
    } else {
        0
    }
}

/// The words of a program image: each group of four bytes read most
/// significant first. A short final group is padded with zero bytes.
pub open spec fn image_words(bytes: Seq<u8>) -> Seq<u32> {
    Seq::new(
        ((bytes.len() + 3) / 4) as nat,
        |k: int|
            be_word(
                byte_or_zero(bytes, 4 * k),
                byte_or_zero(bytes, 4 * k + 1),
                byte_or_zero(bytes, 4 * k + 2),
                byte_or_zero(bytes, 4 * k + 3),
            ),
    )
}

fn byte_at(bytes: &[u8], i: usize, d: usize) -> (r: u8)
    requires
        i < bytes@.len(),
    ensures
        r == byte_or_zero(bytes@, i + d),
{
    if d < bytes.len() - i {
        bytes[i + d]
    } else {
        0
    }
}

/// Reads a program image as big-endian words.
pub fn words_from_bytes(bytes: &[u8]) -> (w: Vec<u32>)
    ensures
        w@ == image_words(bytes@),
{
    let n: usize = bytes.len() / 4 + if bytes.len() % 4 == 0 { 0 } else { 1 };
    assert(n == (bytes@.len() + 3) / 4);
    let mut w: Vec<u32> = Vec::with_capacity(n);
    let mut k: usize = 0;
    while k < n
        invariant
            n == (bytes@.len() + 3) / 4,
            k <= n,
            w@.len() == k,
            forall|j: int| 0 <= j < k ==> w@[j] == #[trigger] image_words(bytes@)[j],
        decreases n - k,
    {
        assert(4 * k < bytes.len());
        let i: usize = 4 * k;
        let b0 = byte_at(bytes, i, 0) as u32;
        let b1 = byte_at(bytes, i, 1) as u32;
        let b2 = byte_at(bytes, i, 2) as u32;
        let b3 = byte_at(bytes, i, 3) as u32;
        let word: u32 = b0 * 0x0100_0000 + b1 * 0x01_0000 + b2 * 0x100 + b3;
        w.push(word);
        k = k + 1;
    }
    assert(w@ =~= image_words(bytes@));
    w
}

} // verus!
