use vstd::prelude::*;

verus! {

/// Every byte of `data` combined with `key` by exclusive or.
pub open spec fn xor_bytes(data: Seq<u8>, key: u8) -> Seq<u8> {
    Seq::new(data.len(), |i: int| data[i] ^ key)
}

/// Encodes `data` in place by xoring every byte with `key`.
pub fn xor_encode(data: &mut [u8], key: u8)
    ensures
        final(data)@ == xor_bytes(old(data)@, key),
{
    let n = data.len();
    let mut i: usize = 0;
    while i < n
        invariant
            n == data@.len(),
            n == old(data)@.len(),
            i <= n,
            forall|j: int| 0 <= j < i ==> data@[j] == old(data)@[j] ^ key,
            forall|j: int| i <= j < n ==> data@[j] == old(data)@[j],
        decreases n - i,
    {
        let byte = data[i];
        data[i] = byte ^ key;
        i = i + 1;
    }
    assert(data@ =~= xor_bytes(old(data)@, key));
}

/// A copy of `data` with every byte xored with `key`.
pub fn xor_decode(data: &[u8], key: u8) -> (decoded: Vec<u8>)
    ensures
        decoded@ == xor_bytes(data@, key),
{
    let n = data.len();
    let mut decoded: Vec<u8> = Vec::with_capacity(n);
    let mut i: usize = 0;
    while i < n
        invariant
            n == data@.len(),
            i <= n,
            decoded@ == xor_bytes(data@.take(i as int), key),
        decreases n - i,
    {
        decoded.push(data[i] ^ key);
        i = i + 1;
        assert(xor_bytes(data@.take(i as int), key) =~= xor_bytes(data@.take(i - 1), key).push(
            data@[i - 1] ^ key,
        ));
    }
    assert(data@.take(n as int) =~= data@);
    decoded
}

/// Xoring twice with the same key gives back the original bytes: decoding
/// undoes encoding.
pub proof fn lemma_xor_involution(data: Seq<u8>, key: u8)
    ensures
        xor_bytes(xor_bytes(data, key), key) == data,
{
    assert forall|i: int| 0 <= i < data.len() implies #[trigger] xor_bytes(
        xor_bytes(data, key),
        key,
    )[i] == data[i] by {
        let b = data[i];
        assert((b ^ key) ^ key == b) by (bit_vector);
    }
    assert(xor_bytes(xor_bytes(data, key), key) =~= data);
}

} // verus!
