use vstd::prelude::*;
use vstd::utf8::encode_utf8;
use crate::storage::byte_sum;
use crate::text::{append_chars, append_str, chars_of, decimal, push_decimal, string_from_chars};

verus! {

/// The shard of a value: the wrapping 16-bit sum of its bytes, modulo the shard count.
pub open spec fn shard_for(value: Seq<char>, shard_count: u16) -> u16 {
    ((byte_sum(encode_utf8(value)) % 0x1_0000) % (shard_count as nat)) as u16
}

/// The shard a value falls in among `shard_count` shards.
pub fn stable_shard(value: &str, shard_count: u16) -> (r: u16)
    requires
        shard_count > 0,
    ensures
        r == shard_for(value@, shard_count),
{
    let bytes = value.as_bytes();
    let mut checksum: u16 = 0;
    let mut i: usize = 0;
    while i < bytes.len()
        invariant
            i <= bytes@.len(),
            bytes@ == encode_utf8(value@),
            checksum == byte_sum(bytes@.take(i as int)) % 0x1_0000,
        decreases bytes.len() - i,
    {
        assert(bytes@.take(i + 1).drop_last() =~= bytes@.take(i as int));
        checksum = checksum.wrapping_add(bytes[i] as u16);
        i = i + 1;
    }
    assert(bytes@.take(i as int) =~= bytes@);
    checksum % shard_count
}

/// `digits` padded on the left with zeros to at least `width` characters, as `{:0w}` does.
pub open spec fn zero_padded(digits: Seq<char>, width: nat) -> Seq<char> {
    if digits.len() >= width {
        digits
    } else {
        Seq::new((width - digits.len()) as nat, |_i: int| '0') + digits
    }
}

/// The key of an event sent to the Badger sidecar.
pub open spec fn sidecar_key_of(commit_id: Seq<char>, shard_count: u16, ts: u64) -> Seq<char> {
    let count: u16 = if shard_count >= 1 {
        shard_count
    } else {
        1
    };
    "evt:shard:"@ + zero_padded(decimal(shard_for(commit_id, count) as nat), 4) + ":"@ + decimal(
        ts as nat,
    ) + ":"@ + commit_id
}

/// The sidecar key of an event: its shard (among at least one), four digits wide, the time
/// in seconds and the commit id.
pub fn sidecar_key(commit_id: &str, shard_count: u16, ts: u64) -> (r: String)
    ensures
        r@ == sidecar_key_of(commit_id@, shard_count, ts),
{
    let count: u16 = if shard_count >= 1 {
        shard_count
    } else {
        1
    };
    let shard = stable_shard(commit_id, count);
    let mut digits: Vec<char> = Vec::new();
    push_decimal(&mut digits, shard as u64);
    assert(digits@ =~= decimal(shard as nat));
    let mut out = chars_of("evt:shard:");
    let ghost start = out@;
    let mut pad: usize = digits.len();
    while pad < 4
        invariant
            digits@.len() <= pad <= 4 || (digits@.len() >= 4 && pad == digits@.len()),
            out@ == start + Seq::new((pad - digits@.len()) as nat, |_i: int| '0'),
        decreases 4 - pad,
    {
        out.push('0');
        pad = pad + 1;
        assert(out@ =~= start + Seq::new((pad - digits@.len()) as nat, |_i: int| '0'));
    }
    append_chars(&mut out, &digits);
    assert(out@ =~= start + zero_padded(decimal(shard as nat), 4));
    append_str(&mut out, ":");
    push_decimal(&mut out, ts);
    append_str(&mut out, ":");
    append_str(&mut out, commit_id);
    string_from_chars(&out)
}

} // verus!
