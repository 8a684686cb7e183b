use vstd::prelude::*;
use crate::clock::unix_nanos;
use crate::text::string_from_chars;

verus! {

/// The characters random ids are made of.
pub open spec fn id_alphabet() -> Seq<char> {
    "abcdefghijklmnopqrstuvwxyz0123456789"@
}

/// The position in [`id_alphabet`] of the `i`-th character drawn from `seed`.
pub open spec fn id_char_index(seed: u64, i: int) -> int {
    ((seed.wrapping_mul((i + 1) as u64).wrapping_add(seed >> ((i % 8) as u64))) as usize % 36) as int
}

/// The `len` characters drawn from `seed`.
pub open spec fn id_chars(seed: u64, len: nat) -> Seq<char> {
    Seq::new(len, |i: int| id_alphabet()[id_char_index(seed, i)])
}

/// The string of `len` characters that `seed` draws from the id alphabet.
pub fn random_str_from_seed(seed: u64, len: usize) -> (r: String)
    ensures
        r@ == id_chars(seed, len as nat),
{
    let alphabet = "abcdefghijklmnopqrstuvwxyz0123456789";
    proof {
        reveal_strlit("abcdefghijklmnopqrstuvwxyz0123456789");
    }
    let mut out: Vec<char> = Vec::new();
    let mut i: usize = 0;
    while i < len
        invariant
            0 <= i <= len,
            alphabet@ == id_alphabet(),
            alphabet@.len() == 36,
            out@ == id_chars(seed, i as nat),
        decreases len - i,
    {
        let k: u64 = i as u64;
        let x: u64 = seed.wrapping_mul(k + 1).wrapping_add(seed >> (k % 8));
        let idx: usize = (x as usize) % 36;
        assert(idx as int == id_char_index(seed, i as int));
        out.push(alphabet.get_char(idx));
        assert(out@ =~= id_chars(seed, (i + 1) as nat));
        i = i + 1;
    }
    string_from_chars(&out)
}

/// `len` characters drawn from the id alphabet with the current time as seed.
pub fn random_str(len: usize) -> (r: String)
    ensures
        exists|seed: u64| r@ == id_chars(seed, len as nat),
{
    let nanos = unix_nanos();
    let seed = nanos as u64;
    random_str_from_seed(seed, len)
}

} // verus!
