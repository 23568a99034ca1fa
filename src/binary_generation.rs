use vstd::prelude::*;

use crate::constants::{CONTINUATION_BIT, VARINT_GROUP_BASE};

verus! {

/// Weight of the varint group at position `shift`: `128^shift`.
pub open spec fn group_weight(shift: nat) -> nat
    decreases shift,
{
    if shift == 0 {
        1
    } else {
        128 * group_weight((shift - 1) as nat)
    }
}

/// The varint of `n`: seven bits per byte, least significant group first,
/// the top bit set on every byte but the last.
pub open spec fn varint(n: nat) -> Seq<u8>
    decreases n,
{
    if n < 128 {
        seq![n as u8]
    } else {
        seq![(n % 128 + 128) as u8] + varint(n / 128)
    }
}

/// The two bytes of a type tag, low byte first.
pub open spec fn tag_bytes(tag: u16) -> Seq<u8> {
    seq![(tag % 256) as u8, (tag / 256) as u8]
}

/// One whole frame: the payload's length as a varint, the tag, the payload.
pub open spec fn frame_bytes(payload: Seq<u8>, tag: u16) -> Seq<u8> {
    varint(payload.len()) + tag_bytes(tag) + payload
}

pub proof fn lemma_group_weight_grows(i: nat, j: nat)
    requires
        i < j,
    ensures
        group_weight(j) >= 128 * group_weight(i),
    decreases j,
{
    if j > i + 1 {
        lemma_group_weight_grows(i, (j - 1) as nat);
    }
}

/// The varint of `n` has `k` bytes, the least `k >= 1` with `n < 128^k`.
pub proof fn lemma_varint_length(n: nat)
    ensures
        varint(n).len() >= 1,
        n < group_weight(varint(n).len()),
        varint(n).len() == 1 || group_weight((varint(n).len() - 1) as nat) <= n,
    decreases n,
{
    if n >= 128 {
        lemma_varint_length(n / 128);
        let k = varint(n / 128).len();
        assert(varint(n).len() == k + 1);
        let w = group_weight(k);
        assert(group_weight(k + 1) == 128 * w);
        assert(n < 128 * w) by (nonlinear_arith)
            requires
                n / 128 < w,
        ;
        if k > 1 {
            let v = group_weight((k - 1) as nat);
            assert(w == 128 * v);
            assert(128 * v <= n) by (nonlinear_arith)
                requires
                    v <= n / 128,
            ;
        }
    } else {
        assert(group_weight(1) == 128 * group_weight(0));
    }
}

/// Encodes `size` as a varint.
pub fn size_to_bytes_sequence(size: usize) -> (r: Vec<u8>)
    ensures
        r@ == varint(size as nat),
{
    let mut to_return: Vec<u8> = Vec::new();
    let mut rest: usize = size;
    loop
        invariant
            to_return@ + varint(rest as nat) == varint(size as nat),
        decreases rest,
    {
        let group: usize = rest % VARINT_GROUP_BASE;
        let next: usize = rest / VARINT_GROUP_BASE;
        if next == 0 {
            to_return.push(group as u8);
            assert(to_return@ =~= varint(size as nat));
            return to_return;
        }
        let byte: u8 = (group as u8) + CONTINUATION_BIT;
        assert(varint(rest as nat) == seq![byte] + varint(next as nat));
        assert(to_return@.push(byte) + varint(next as nat) =~= to_return@ + varint(rest as nat));
        to_return.push(byte);
        rest = next;
    }
}

/// Encodes a type tag as two bytes, low byte first.
pub fn u16_to_bytes(value: u16) -> (r: [u8; 2])
    ensures
        r@ == tag_bytes(value),
{
    let r = [(value % 256) as u8, (value / 256) as u8];
    assert(r@ =~= tag_bytes(value));
    r
}

/// Builds one self-delimited frame from a payload and its type tag.
pub fn encode_frame(payload: &[u8], tag: u16) -> (r: Vec<u8>)
    ensures
        r@ == frame_bytes(payload@, tag),
{
    let mut out = size_to_bytes_sequence(payload.len());
    let tag_pair = u16_to_bytes(tag);
    out.push(tag_pair[0]);
    out.push(tag_pair[1]);
    let ghost header = out@;
    let mut i: usize = 0;
    while i < payload.len()
        invariant
            i <= payload@.len(),
            header == varint(payload@.len()) + tag_bytes(tag),
            out@ == header + payload@.subrange(0, i as int),
        decreases payload.len() - i,
    {
        out.push(payload[i]);
        i += 1;
        assert(out@ =~= header + payload@.subrange(0, i as int));
    }
    assert(payload@.subrange(0, payload@.len() as int) =~= payload@);
    out
}

} // verus!
