//! The checkpoint format: the network's parameters one after another, each
//! as its 32 bits in little-endian byte order. The library frames the
//! bytes; turning a 32-bit word into a parameter value happens outside it.
use vstd::prelude::*;

verus! {

/// The value of four bytes read as a little-endian 32-bit word.
pub open spec fn le_word(b: Seq<u8>) -> int {
    b[0] + 256 * b[1] + 65536 * b[2] + 16777216 * b[3]
}

/// The four bytes of `w`, least significant first.
pub open spec fn le_bytes(w: u32) -> Seq<u8> {
    seq![(w % 256) as u8, ((w / 256) % 256) as u8, ((w / 65536) % 256) as u8, (w / 16777216) as u8]
}

/// Reading back the bytes of a word gives the word.
pub proof fn lemma_le_word_of_bytes(w: u32)
    ensures
        le_word(le_bytes(w)) == w,
{
    let b = le_bytes(w);
    assert(b[0] == w % 256);
    assert(b[1] == (w / 256) % 256);
    assert(b[2] == (w / 65536) % 256);
    assert(b[3] == w / 16777216);
    assert((w % 256) + 256 * ((w / 256) % 256) + 65536 * ((w / 65536) % 256) + 16777216 * (w
        / 16777216) == w) by (nonlinear_arith);
}

/// Writing the word that four bytes spell gives the same bytes.
pub proof fn lemma_le_bytes_of_word(b0: u8, b1: u8, b2: u8, b3: u8)
    ensures
        le_bytes((b0 + 256 * b1 + 65536 * b2 + 16777216 * b3) as u32) == seq![b0, b1, b2, b3],
{
    let w: u32 = (b0 + 256 * b1 + 65536 * b2 + 16777216 * b3) as u32;
    assert(w % 256 == b0 && (w / 256) % 256 == b1 && (w / 65536) % 256 == b2 && w / 16777216
        == b3) by (nonlinear_arith)
        requires
            w == b0 + 256 * b1 + 65536 * b2 + 16777216 * b3,
            b0 < 256,
            b1 < 256,
            b2 < 256,
            b3 < 256,
    ;
    assert(le_bytes(w) =~= seq![b0, b1, b2, b3]);
}

/// The bytes of a checkpoint holding `words`: the four little-endian bytes of
/// each word in turn.
pub fn params_to_bytes(words: &Vec<u32>) -> (bytes: Vec<u8>)
    requires
        words@.len() * 4 <= usize::MAX,
    ensures
        bytes@.len() == 4 * words@.len(),
        forall|i: int|
            0 <= i < words@.len() ==> bytes@.subrange(4 * i, 4 * i + 4) == le_bytes(
                #[trigger] words@[i],
            ),
{
    let mut bytes: Vec<u8> = Vec::new();
    let mut i: usize = 0;
    while i < words.len()
        invariant
            i <= words@.len(),
            bytes@.len() == 4 * i,
            forall|k: int|
                0 <= k < i ==> bytes@.subrange(4 * k, 4 * k + 4) == le_bytes(#[trigger] words@[k]),
        decreases words@.len() - i,
    {
        let w = words[i];
        let ghost before = bytes@;
        bytes.push((w % 256) as u8);
        bytes.push(((w / 256) % 256) as u8);
        bytes.push(((w / 65536) % 256) as u8);
        bytes.push((w / 16777216) as u8);
        assert(bytes@.subrange(4 * i as int, 4 * i + 4) =~= le_bytes(w));
        assert forall|k: int| 0 <= k < i + 1 implies bytes@.subrange(4 * k, 4 * k + 4) == le_bytes(
            #[trigger] words@[k],
        ) by {
            if k < i {
                assert(bytes@.subrange(4 * k, 4 * k + 4) =~= before.subrange(4 * k, 4 * k + 4));
            }
        }
        i += 1;
    }
    bytes
}

/// The words of a checkpoint: each run of four bytes read as a little-endian
/// word; bytes left over after the last whole word are ignored.
pub fn params_from_bytes(bytes: &Vec<u8>) -> (words: Vec<u32>)
    ensures
        words@.len() == bytes@.len() / 4,
        forall|i: int|
            0 <= i < words@.len() ==> #[trigger] words@[i] == le_word(bytes@.subrange(4 * i, 4 * i + 4)),
{
    let len = bytes.len();
    let n = len / 4;
    let mut words: Vec<u32> = Vec::new();
    let mut i: usize = 0;
    while i < n
        invariant
            len == bytes@.len(),
            n == len / 4,
            i <= n,
            words@.len() == i,
            forall|k: int|
                0 <= k < i ==> #[trigger] words@[k] == le_word(bytes@.subrange(4 * k, 4 * k + 4)),
        decreases n - i,
    {
        assert(4 * i + 4 <= bytes@.len()) by (nonlinear_arith)
            requires
                i < n,
                n == len / 4,
                len == bytes@.len(),
        ;
        let base = 4 * i;
        let b0 = bytes[base] as u32;
        let b1 = bytes[base + 1] as u32;
        let b2 = bytes[base + 2] as u32;
        let b3 = bytes[base + 3] as u32;
        let w = b0 + 256 * b1 + 65536 * b2 + 16777216 * b3;
        assert(w == le_word(bytes@.subrange(4 * i as int, 4 * i + 4)));
        words.push(w);
        i += 1;
    }
    words
}

/// Reading a checkpoint back gives the words that were written.
pub proof fn lemma_checkpoint_round_trip(words: Seq<u32>, bytes: Seq<u8>)
    requires
        bytes.len() == 4 * words.len(),
        forall|i: int|
            0 <= i < words.len() ==> bytes.subrange(4 * i, 4 * i + 4) == le_bytes(#[trigger] words[i]),
    ensures
        bytes.len() / 4 == words.len(),
        forall|i: int|
            0 <= i < words.len() ==> le_word(bytes.subrange(4 * i, 4 * i + 4)) == #[trigger] words[i],
{
    assert forall|i: int| 0 <= i < words.len() implies le_word(bytes.subrange(4 * i, 4 * i + 4))
        == #[trigger] words[i] by {
        lemma_le_word_of_bytes(words[i]);
    }
}

/// Writing the words read from a checkpoint gives back its bytes, up to the
/// last whole word.
pub proof fn lemma_checkpoint_bytes_round_trip(bytes: Seq<u8>, words: Seq<u32>)
    requires
        words.len() == bytes.len() / 4,
        forall|i: int|
            0 <= i < words.len() ==> #[trigger] words[i] == le_word(bytes.subrange(4 * i, 4 * i + 4)),
    ensures
        forall|i: int|
            0 <= i < words.len() ==> le_bytes(#[trigger] words[i]) == bytes.subrange(4 * i, 4 * i + 4),
{
    assert forall|i: int| 0 <= i < words.len() implies le_bytes(#[trigger] words[i])
        == bytes.subrange(4 * i, 4 * i + 4) by {
        let s = bytes.subrange(4 * i, 4 * i + 4);
        lemma_le_bytes_of_word(s[0], s[1], s[2], s[3]);
        assert(s =~= seq![s[0], s[1], s[2], s[3]]);
    }
}

} // verus!
