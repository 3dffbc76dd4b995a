//! The place of an index among those of other workspaces.

use vstd::prelude::*;
use vstd::utf8::encode_utf8;

use crate::text::texts;

verus! {

/// The 64-bit XXH3 hash of `bytes`.
pub uninterp spec fn xxh3(bytes: Seq<u8>) -> u64;

/// `xxh3_64` computes the 64-bit XXH3 hash of its input, without a seed.
pub assume_specification[ xxhash_rust::xxh3::xxh3_64 ](input: &[u8]) -> (hash: u64)
    ensures
        hash == xxh3(input@),
;

/// The hexadecimal digit for `d`, in lower case.
pub open spec fn hex_digit(d: int) -> char {
    if d < 10 {
        (48 + d) as char
    } else {
        (87 + d) as char
    }
}

/// The last `count` hexadecimal digits of `value`, padded with zeros.
pub open spec fn hex_digits(value: int, count: nat) -> Seq<char>
    decreases count,
{
    if count == 0 {
        Seq::empty()
    } else {
        hex_digits(value / 16, (count - 1) as nat).push(hex_digit(value % 16))
    }
}

/// The hexadecimal digit for `d`.
fn digit(d: u64) -> (c: char)
    requires
        d < 16,
    ensures
        c == hex_digit(d as int),
{
    if d < 10 {
        (48 + d as u8) as char
    } else {
        (87 + d as u8) as char
    }
}

/// `hash` as 16 hexadecimal digits.
pub fn hex16(hash: u64) -> (text: String)
    ensures
        text@ == hex_digits(hash as int, 16),
{
    let mut digits: Vec<char> = Vec::new();
    let mut rest: u64 = hash;
    while digits.len() < 16
        invariant
            digits@.len() <= 16,
            hex_digits(hash as int, 16) == hex_digits(rest as int, (16 - digits@.len()) as nat) + digits@.reverse(),
        decreases 16 - digits@.len(),
    {
        let ghost before = digits@.reverse();
        let ghost count = (16 - digits@.len()) as nat;
        digits.push(digit(rest % 16));
        proof {
            assert(digits@.reverse() =~= seq![hex_digit(rest as int % 16)] + before);
            assert(hex_digits(rest as int, count) + before =~= hex_digits(rest as int / 16, (count - 1) as nat)
                + digits@.reverse());
        }
        rest = rest / 16;
    }
    assert(hex_digits(hash as int, 16) =~= digits@.reverse());
    let mut text = String::new();
    let mut i: usize = 16;
    while i > 0
        invariant
            i <= 16,
            digits@.len() == 16,
            text@ == digits@.reverse().take(16 - i),
        decreases i,
    {
        i -= 1;
        text.push(digits[i]);
        assert(digits@.reverse().take(16 - i) =~= digits@.reverse().take(15 - i).push(digits@[i as int]));
    }
    assert(digits@.reverse().take(16) =~= digits@.reverse());
    text
}

/// The name that stands for a path: its hash, as 16 hexadecimal digits.
pub open spec fn hashed_name(path: Seq<char>) -> Seq<char> {
    hex_digits(xxh3(encode_utf8(path)) as int, 16)
}

/// Hashes a path to create an identifier for it.
pub fn hash_path(path: &str) -> (name: String)
    ensures
        name@ == hashed_name(path@),
{
    hex16(xxhash_rust::xxh3::xxh3_64(path.as_bytes()))
}

/// The components that lead from the data directory to the index of the workspace at `root`.
pub fn index_segments(root: &str) -> (segments: Vec<String>)
    ensures
        texts(segments@) == seq!["indexes"@, hashed_name(root@)],
{
    let mut segments: Vec<String> = Vec::new();
    segments.push("indexes".to_owned());
    segments.push(hash_path(root));
    assert(texts(segments@) =~= seq!["indexes"@, hashed_name(root@)]);
    segments
}

/// 16 to the power of `n`.
pub open spec fn pow16(n: nat) -> int
    decreases n,
{
    if n == 0 {
        1
    } else {
        16 * pow16((n - 1) as nat)
    }
}

/// A hexadecimal number of `count` digits has `count` digits, all of them `0` to `9` or `a` to `f`.
pub proof fn law_hex_digits(value: int, count: nat)
    requires
        value >= 0,
    ensures
        hex_digits(value, count).len() == count,
        forall|i: int|
            0 <= i < count ==> {
                let c = #[trigger] hex_digits(value, count)[i];
                '0' <= c <= '9' || 'a' <= c <= 'f'
            },
    decreases count,
{
    if count > 0 {
        law_hex_digits(value / 16, (count - 1) as nat);
    }
}

/// Different numbers that `count` digits can hold have different digits.
pub proof fn law_hex_digits_tell_apart(a: int, b: int, count: nat)
    requires
        0 <= a < pow16(count),
        0 <= b < pow16(count),
        hex_digits(a, count) == hex_digits(b, count),
    ensures
        a == b,
    decreases count,
{
    if count > 0 {
        let da = hex_digits(a, count);
        let db = hex_digits(b, count);
        law_hex_digits(a, count);
        law_hex_digits(b, count);
        assert(da.last() == db.last());
        assert(a % 16 == b % 16);
        assert(hex_digits(a / 16, (count - 1) as nat) =~= da.drop_last());
        assert(hex_digits(b / 16, (count - 1) as nat) =~= db.drop_last());
        law_hex_digits_tell_apart(a / 16, b / 16, (count - 1) as nat);
    }
}

/// Two workspaces share the name of an index only where their paths have the same hash.
pub proof fn law_index_name_is_the_hash(a: Seq<char>, b: Seq<char>)
    requires
        hashed_name(a) == hashed_name(b),
    ensures
        xxh3(encode_utf8(a)) == xxh3(encode_utf8(b)),
{
    reveal_with_fuel(pow16, 17);
    law_hex_digits_tell_apart(xxh3(encode_utf8(a)) as int, xxh3(encode_utf8(b)) as int, 16);
}

/// The digits of a number, from the last on: each is the one for the remainder by 16.
pub proof fn law_last_digit_is_the_remainder(value: int, count: nat)
    requires
        value >= 0,
    ensures
        hex_digits(value, 0) == Seq::<char>::empty(),
        hex_digits(value, count + 1).len() == count + 1,
        hex_digits(value, count + 1).drop_last() == hex_digits(value / 16, count),
        hex_digits(value, count + 1).last() == seq![
            '0', '1', '2', '3', '4', '5', '6', '7', '8', '9', 'a', 'b', 'c', 'd', 'e', 'f',
        ][value % 16],
{
    law_hex_digits(value, count + 1);
    assert(hex_digits(value, count + 1).drop_last() =~= hex_digits(value / 16, count));
}

/// The name of an index is the hash of the root in UTF-8, as 16 digits.
pub proof fn law_index_name_has_sixteen_digits(root: Seq<char>)
    ensures
        hashed_name(root) == hex_digits(xxh3(encode_utf8(root)) as int, 16),
        hashed_name(root).len() == 16,
{
    law_hex_digits(xxh3(encode_utf8(root)) as int, 16);
}

} // verus!
