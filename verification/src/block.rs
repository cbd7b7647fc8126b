//! Blocks: sixteen bytes each, the unit the cipher works on, and the passage
//! between a flat byte sequence and its blocks.

use vstd::prelude::*;
use vstd::array::spec_array_fill_for_copy_type;
use vstd::array::spec_array_update;
use crate::error::CipherError;

verus! {

/// AES-128 has 16-byte (128 bit) blocks, and keys of the same size.
pub const BLOCK_SIZE: usize = 16;

/// The block whose first `n` bytes are those of `s`, the rest zero.
spec fn block_prefix(s: Seq<u8>, n: nat) -> [u8; 16]
    decreases n,
{
    if n == 0 {
        spec_array_fill_for_copy_type::<u8, 16>(0u8)
    } else {
        spec_array_update(block_prefix(s, (n - 1) as nat), n - 1, s[n - 1])
    }
}

/// The block made of the first sixteen bytes of `s`. Blocks are equal when
/// their bytes are, so `lemma_block_of` says all there is to know of it.
pub closed spec fn block_of(s: Seq<u8>) -> [u8; 16] {
    block_prefix(s, 16)
}

proof fn lemma_block_prefix(s: Seq<u8>, n: nat)
    requires
        n <= 16,
    ensures
        forall|j: int| 0 <= j < n ==> block_prefix(s, n)@[j] == s[j],
    decreases n,
{
    if n > 0 {
        lemma_block_prefix(s, (n - 1) as nat);
    }
}

/// `block_of(s)` holds byte for byte what `s` begins with.
pub proof fn lemma_block_of(s: Seq<u8>)
    ensures
        forall|j: int| 0 <= j < 16 ==> #[trigger] block_of(s)@[j] == s[j],
        s.len() == 16 ==> block_of(s)@ == s,
{
    lemma_block_prefix(s, 16);
}

/// The `i`-th block of `s`: its bytes `16 * i` up to `16 * i + 16`.
pub open spec fn block_at(s: Seq<u8>, i: int) -> [u8; 16] {
    block_of(Seq::new(16, |j: int| s[16 * i + j]))
}

/// The blocks of `s`, in order. Bytes behind the last whole block are left out.
pub open spec fn grouped(s: Seq<u8>) -> Seq<[u8; 16]> {
    Seq::new(s.len() / 16, |i: int| block_at(s, i))
}

/// The bytes of the blocks `bs`, one block after the other.
pub open spec fn ungrouped(bs: Seq<[u8; 16]>) -> Seq<u8> {
    Seq::new(16 * bs.len(), |k: int| bs[k / 16]@[k % 16])
}

/// The block that holds `a[j] ^ b[j]` at each place `j`.
pub open spec fn xored(a: [u8; 16], b: [u8; 16]) -> [u8; 16] {
    block_of(Seq::new(16, |j: int| a@[j] ^ b@[j]))
}

/// Byte `j` of block `i` of `s` is byte `16 * i + j` of `s`.
pub proof fn lemma_block_at(s: Seq<u8>, i: int)
    ensures
        forall|j: int| 0 <= j < 16 ==> #[trigger] block_at(s, i)@[j] == s[16 * i + j],
{
    lemma_block_of(Seq::new(16, |j: int| s[16 * i + j]));
}

/// Byte `j` of `xored(a, b)` is `a[j] ^ b[j]`.
pub proof fn lemma_xored(a: [u8; 16], b: [u8; 16])
    ensures
        forall|j: int| 0 <= j < 16 ==> #[trigger] xored(a, b)@[j] == a@[j] ^ b@[j],
{
    lemma_block_of(Seq::new(16, |j: int| a@[j] ^ b@[j]));
}

/// Grouping and then ungrouping gives back any sequence that is a whole
/// number of blocks.
pub proof fn lemma_ungroup_group(s: Seq<u8>)
    requires
        s.len() % 16 == 0,
    ensures
        grouped(s).len() * 16 == s.len(),
        ungrouped(grouped(s)) == s,
{
    let g = grouped(s);
    assert forall|k: int| 0 <= k < s.len() implies ungrouped(g)[k] == s[k] by {
        lemma_block_at(s, k / 16);
        assert(g[k / 16] == block_at(s, k / 16));
        assert(block_at(s, k / 16)@[k % 16] == s[16 * (k / 16) + k % 16]);
    }
    assert(ungrouped(g) =~= s);
}

/// Ungrouping and then grouping gives back any sequence of blocks.
pub proof fn lemma_group_ungroup(bs: Seq<[u8; 16]>)
    ensures
        ungrouped(bs).len() == 16 * bs.len(),
        grouped(ungrouped(bs)) == bs,
{
    let u = ungrouped(bs);
    assert forall|i: int| 0 <= i < bs.len() implies grouped(u)[i] == bs[i] by {
        lemma_block_at(u, i);
        assert forall|j: int| 0 <= j < 16 implies block_at(u, i)@[j] == bs[i]@[j] by {
            let k = 16 * i + j;
            assert(k / 16 == i && k % 16 == j);
            assert(u[k] == bs[k / 16]@[k % 16]);
        }
        assert(block_at(u, i) =~= bs[i]);
    }
    assert(grouped(u) =~= bs);
}

/// Xoring with a block is undone by xoring with it again, on whichever side
/// it stands.
pub proof fn lemma_xor_twice(a: [u8; 16], b: [u8; 16])
    ensures
        xored(xored(a, b), b) == a,
        xored(xored(b, a), b) == a,
        xored(b, xored(a, b)) == a,
        xored(b, xored(b, a)) == a,
{
    lemma_xored(a, b);
    lemma_xored(b, a);
    lemma_xored(xored(a, b), b);
    lemma_xored(xored(b, a), b);
    lemma_xored(b, xored(a, b));
    lemma_xored(b, xored(b, a));
    assert forall|j: int| 0 <= j < 16 implies {
        &&& xored(xored(a, b), b)@[j] == a@[j]
        &&& xored(xored(b, a), b)@[j] == a@[j]
        &&& xored(b, xored(a, b))@[j] == a@[j]
        &&& xored(b, xored(b, a))@[j] == a@[j]
    } by {
        let x = a@[j];
        let y = b@[j];
        assert((x ^ y) ^ y == x && (y ^ x) ^ y == x && y ^ (x ^ y) == x && y ^ (y ^ x) == x)
            by (bit_vector);
    }
    assert(xored(xored(a, b), b) =~= a);
    assert(xored(xored(b, a), b) =~= a);
    assert(xored(b, xored(a, b)) =~= a);
    assert(xored(b, xored(b, a)) =~= a);
}

/// Groups the data into blocks of `BLOCK_SIZE` bytes, in order. Data that is
/// not a whole number of blocks is refused: pad it first.
pub fn group(data: Vec<u8>) -> (out: Result<Vec<[u8; BLOCK_SIZE]>, CipherError>)
    ensures
        out is Ok <==> data@.len() % 16 == 0,
        out matches Ok(blocks) ==> blocks@ == grouped(data@),
        out matches Ok(blocks) ==> blocks@.len() * 16 == data@.len() && forall|i: int, j: int|
            0 <= i < blocks@.len() && 0 <= j < 16 ==> #[trigger] blocks@[i]@[j] == data@[16 * i
                + j],
        out matches Err(e) ==> e == (CipherError::InvalidLength {
            minimum: 0,
            actual: data.len(),
        }),
{
    if data.len() % BLOCK_SIZE != 0 {
        return Err(CipherError::InvalidLength { minimum: 0, actual: data.len() });
    }
    let mut blocks: Vec<[u8; BLOCK_SIZE]> = Vec::new();
    let mut i: usize = 0;
    while i < data.len()
        invariant
            i <= data.len(),
            i % 16 == 0,
            data.len() % 16 == 0,
            blocks@.len() == i / 16,
            forall|b: int| 0 <= b < blocks@.len() ==> blocks@[b] == block_at(data@, b),
        decreases data.len() - i,
    {
        let mut block: [u8; BLOCK_SIZE] = [0u8; BLOCK_SIZE];
        let mut j: usize = 0;
        while j < BLOCK_SIZE
            invariant
                j <= 16,
                i + 16 <= data.len(),
                forall|t: int| 0 <= t < j ==> block@[t] == data@[i + t],
            decreases 16 - j,
        {
            block[j] = data[i + j];
            j += 1;
        }
        proof {
            lemma_block_at(data@, i as int / 16);
            assert(block =~= block_at(data@, i as int / 16));
        }
        blocks.push(block);
        i += BLOCK_SIZE;
    }
    proof {
        assert(blocks@ =~= grouped(data@));
        assert forall|i: int, j: int| 0 <= i < blocks@.len() && 0 <= j < 16 implies
            #[trigger] blocks@[i]@[j] == data@[16 * i + j] by {
            lemma_block_at(data@, i);
        }
    }
    Ok(blocks)
}

/// Does the opposite of `group`: the bytes of the blocks, in order.
pub fn un_group(blocks: Vec<[u8; BLOCK_SIZE]>) -> (out: Vec<u8>)
    ensures
        out@ == ungrouped(blocks@),
{
    let mut data: Vec<u8> = Vec::new();
    let mut i: usize = 0;
    while i < blocks.len()
        invariant
            i <= blocks.len(),
            data@.len() == 16 * i,
            forall|k: int| 0 <= k < data@.len() ==> data@[k] == blocks@[k / 16]@[k % 16],
        decreases blocks.len() - i,
    {
        let block: [u8; BLOCK_SIZE] = blocks[i];
        let mut j: usize = 0;
        while j < BLOCK_SIZE
            invariant
                j <= 16,
                i < blocks.len(),
                block == blocks@[i as int],
                data@.len() == 16 * i + j,
                forall|k: int| 0 <= k < data@.len() ==> data@[k] == blocks@[k / 16]@[k % 16],
            decreases 16 - j,
        {
            data.push(block[j]);
            j += 1;
        }
        i += 1;
    }
    assert(data@ =~= ungrouped(blocks@));
    data
}

/// The bytewise exclusive or of two blocks.
pub fn xor(arr1: [u8; BLOCK_SIZE], arr2: [u8; BLOCK_SIZE]) -> (out: [u8; BLOCK_SIZE])
    ensures
        forall|j: int| 0 <= j < 16 ==> out@[j] == arr1@[j] ^ arr2@[j],
        out == xored(arr1, arr2),
{
    let mut result: [u8; BLOCK_SIZE] = [0u8; BLOCK_SIZE];
    let mut i: usize = 0;
    while i < BLOCK_SIZE
        invariant
            i <= 16,
            forall|j: int| 0 <= j < i ==> result@[j] == arr1@[j] ^ arr2@[j],
        decreases 16 - i,
    {
        result[i] = arr1[i] ^ arr2[i];
        i += 1;
    }
    proof {
        lemma_xored(arr1, arr2);
        assert(result =~= xored(arr1, arr2));
    }
    result
}

} // verus!
