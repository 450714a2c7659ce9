//! Network masks as prefix lengths.

use vstd::arithmetic::power2::*;
use vstd::prelude::*;
use vstd::string::*;

use crate::numbers;
use crate::text;

verus! {

/// What the error of `str::parse::<u32>` says of the text.
pub uninterp spec fn number_complaint(s: Seq<char>) -> Seq<char>;

/// The error of `str::parse::<u32>` for a text that spells no such number, as
/// the text that it displays. It depends on the argument alone.
#[verifier::external_body]
fn number_error(s: &str) -> (r: String)
    requires
        numbers::bounded_value(s@, 10, u32::MAX as nat) is None,
    ensures
        r@ == number_complaint(s@),
{
    s.parse::<u32>().unwrap_err().to_string()
}

/// The numbers that the parts spell, or what is wrong with the first part
/// that spells none.
pub open spec fn part_values(parts: Seq<Seq<char>>) -> Result<Seq<nat>, Seq<char>>
    decreases parts.len(),
{
    if parts.len() == 0 {
        Ok(Seq::empty())
    } else {
        match part_values(parts.drop_last()) {
            Err(e) => Err(e),
            Ok(before) => match numbers::bounded_value(parts.last(), 10, u32::MAX as nat) {
                Some(v) => Ok(before.push(v)),
                None => Err(number_complaint(parts.last())),
            },
        }
    }
}

/// The number that the low bytes of four numbers make up.
pub open spec fn mask_value(v: Seq<nat>) -> nat {
    v[0] % 256 * 16777216 + v[1] % 256 * 65536 + v[2] % 256 * 256 + v[3] % 256
}

/// The mask with a prefix of `n` ones.
pub open spec fn mask_of(n: nat) -> int {
    4294967296 - pow2((32 - n) as nat)
}

/// The length, from `n` on, of the prefix whose mask this is.
pub open spec fn prefix_from(mask: nat, n: nat) -> Option<nat>
    decreases 33 - n,
{
    if n > 32 {
        None
    } else if mask == mask_of(n) {
        Some(n)
    } else {
        prefix_from(mask, n + 1)
    }
}

/// The prefix length that a dotted mask stands for, or what is wrong with
/// the mask.
pub open spec fn prefix_of(mask: Seq<char>) -> Result<nat, Seq<char>> {
    match part_values(text::pieces(mask, '.')) {
        Err(e) => Err("netmask "@ + mask + ": "@ + e),
        Ok(v) => if v.len() != 4 {
            Err("netmask "@ + mask + ": richiesti 4 ottetti IPv4"@)
        } else {
            match prefix_from(mask_value(v), 0) {
                Some(n) => Ok(n),
                None => Err("netmask "@ + mask + ": non contigua"@),
            }
        },
    }
}

/// The length of the prefix whose mask this is.
fn find_prefix(mask: u64) -> (r: Option<u8>)
    ensures
        match r {
            Some(n) => prefix_from(mask as nat, 0) == Some(n as nat) && n <= 32,
            None => prefix_from(mask as nat, 0) is None,
        },
{
    let mut n: u8 = 0;
    let mut size: u64 = 4294967296;
    proof {
        lemma2_to64();
    }
    while n < 32
        invariant
            n <= 32,
            size == pow2((32 - n) as nat),
            size <= 4294967296,
            prefix_from(mask as nat, 0) == prefix_from(mask as nat, n as nat),
        decreases 32 - n,
    {
        if mask == 4294967296 - size {
            return Some(n);
        }
        proof {
            lemma_pow2_unfold((32 - n) as nat);
        }
        size = size / 2;
        n = n + 1;
    }
    if mask == 4294967296 - size {
        return Some(n);
    }
    proof {
        reveal_with_fuel(prefix_from, 2);
    }
    None
}

/// The prefix length that a dotted mask stands for.
pub fn netmask_to_cidr(mask: &str) -> (r: Result<u8, String>)
    ensures
        match r {
            Ok(n) => prefix_of(mask@) == Ok::<nat, Seq<char>>(n as nat) && n <= 32,
            Err(m) => prefix_of(mask@) == Err::<nat, Seq<char>>(m@),
        },
{
    let cs = text::to_chars(mask);
    let parts = text::split(cs.as_slice(), '.');
    let ghost all = text::pieces(mask@, '.');
    let mut values: Vec<u32> = Vec::new();
    let ghost mut seen: Seq<nat> = Seq::empty();
    let mut i: usize = 0;
    proof {
        assert(all.take(0) =~= Seq::empty());
        assert(text::char_views(parts@).len() == parts@.len());
    }
    while i < parts.len()
        invariant
            all == text::pieces(mask@, '.'),
            text::char_views(parts@) == all,
            parts@.len() == all.len(),
            i <= parts@.len(),
            values@.len() == i,
            part_values(all.take(i as int)) == Ok::<Seq<nat>, Seq<char>>(seen),
            seen.len() == i,
            forall|k: int| 0 <= k < i ==> #[trigger] seen[k] == values@[k],
        decreases parts.len() - i,
    {
        proof {
            assert(all.take(i + 1).drop_last() =~= all.take(i as int));
            assert(all.take(i + 1).last() == parts@[i as int]@);
        }
        match numbers::parse_unsigned(parts[i].as_slice(), 10, u32::MAX as u64) {
            Some(v) => {
                values.push(v as u32);
                proof {
                    seen = seen.push(v as nat);
                }
            },
            None => {
                let e = number_error(text::to_text(parts[i].as_slice()).as_str());
                proof {
                    assert(part_values(all.take(i + 1)) is Err);
                    lemma_first_error(all, i + 1);
                }
                return Err(text::cat4("netmask ", mask, ": ", e.as_str()));
            },
        }
        i = i + 1;
    }
    proof {
        assert(all.take(i as int) =~= all);
    }
    if values.len() != 4 {
        return Err(text::cat3("netmask ", mask, ": richiesti 4 ottetti IPv4"));
    }
    let bits: u64 = (values[0] % 256) as u64 * 16777216 + (values[1] % 256) as u64 * 65536 + (
    values[2] % 256) as u64 * 256 + (values[3] % 256) as u64;
    proof {
        assert(seen[0] == values@[0] && seen[1] == values@[1] && seen[2] == values@[2] && seen[3]
            == values@[3]);
        assert(bits == mask_value(seen));
    }
    match find_prefix(bits) {
        Some(n) => Ok(n),
        None => Err(text::cat3("netmask ", mask, ": non contigua")),
    }
}

/// What is wrong with a start of the parts is what is wrong with all of them.
proof fn lemma_first_error(parts: Seq<Seq<char>>, n: int)
    requires
        0 <= n <= parts.len(),
        part_values(parts.take(n)) is Err,
    ensures
        part_values(parts) == part_values(parts.take(n)),
    decreases parts.len(),
{
    if n == parts.len() {
        assert(parts.take(n) =~= parts);
    } else {
        assert(parts.drop_last().take(n) =~= parts.take(n));
        lemma_first_error(parts.drop_last(), n);
    }
}

// ---------------------------------------------------------------------------
// Counting ones
// ---------------------------------------------------------------------------

/// The number of ones in the binary form of a number.
pub open spec fn ones(v: nat) -> nat
    decreases v,
{
    if v == 0 {
        0
    } else {
        v % 2 + ones(v / 2)
    }
}

/// The ones in the numbers among the parts.
pub open spec fn total_ones(parts: Seq<Seq<char>>) -> nat
    decreases parts.len(),
{
    if parts.len() == 0 {
        0
    } else {
        total_ones(parts.drop_last()) + match numbers::bounded_value(
            parts.last(),
            10,
            u32::MAX as nat,
        ) {
            Some(v) => ones(v),
            None => 0,
        }
    }
}

/// The number of ones in the binary form of a number.
fn count_ones(v: u32) -> (r: u64)
    ensures
        r == ones(v as nat),
        r <= 32,
{
    let mut left: u32 = v;
    let mut n: u64 = 0;
    let ghost mut k: nat = 32;
    proof {
        lemma2_to64();
    }
    while left > 0
        invariant
            ones(v as nat) == n + ones(left as nat),
            n + k <= 32,
            left < pow2(k),
        decreases left,
    {
        proof {
            if k == 0 {
                lemma2_to64();
            } else {
                lemma_pow2_unfold(k);
                k = (k - 1) as nat;
            }
        }
        n = n + (left % 2) as u64;
        left = left / 2;
    }
    n
}

/// The ones in the numbers of a dotted mask; `None` if they are more than
/// 255.
pub fn count_mask_bits(mask: &str) -> (r: Option<u8>)
    ensures
        match r {
            Some(n) => n == total_ones(text::pieces(mask@, '.')),
            None => total_ones(text::pieces(mask@, '.')) > 255,
        },
{
    let cs = text::to_chars(mask);
    let parts = text::split(cs.as_slice(), '.');
    let ghost all = text::pieces(mask@, '.');
    let mut n: u64 = 0;
    let mut i: usize = 0;
    proof {
        assert(all.take(0) =~= Seq::empty());
        assert(text::char_views(parts@).len() == parts@.len());
    }
    while i < parts.len()
        invariant
            all == text::pieces(mask@, '.'),
            text::char_views(parts@) == all,
            parts@.len() == all.len(),
            i <= parts@.len(),
            n <= 300,
            n <= 255 ==> n == total_ones(all.take(i as int)),
            n > 255 ==> total_ones(all.take(i as int)) > 255,
        decreases parts.len() - i,
    {
        proof {
            assert(all.take(i + 1).drop_last() =~= all.take(i as int));
            assert(all.take(i + 1).last() == parts@[i as int]@);
        }
        if n <= 255 {
            if let Some(v) = numbers::parse_unsigned(parts[i].as_slice(), 10, u32::MAX as u64) {
                n = n + count_ones(v as u32);
            }
        }
        i = i + 1;
    }
    proof {
        assert(all.take(i as int) =~= all);
    }
    if n <= 255 {
        Some(n as u8)
    } else {
        None
    }
}

// ---------------------------------------------------------------------------
// Laws
// ---------------------------------------------------------------------------

/// The mask of a prefix is read back as that prefix.
pub proof fn law_mask_reads_back(n: nat)
    requires
        n <= 32,
    ensures
        mask_of(n) >= 0,
        prefix_from(mask_of(n) as nat, 0) == Some(n),
{
    lemma2_to64();
    if n > 0 {
        lemma_pow2_strictly_increases((32 - n) as nat, 32);
    }
    lemma_prefix_reached(0, n);
}

/// Shorter prefixes have other masks.
proof fn lemma_prefix_reached(k: nat, n: nat)
    requires
        k <= n <= 32,
        mask_of(n) >= 0,
    ensures
        prefix_from(mask_of(n) as nat, k) == Some(n),
    decreases n - k,
{
    if k < n {
        lemma_pow2_strictly_increases((32 - n) as nat, (32 - k) as nat);
        lemma_prefix_reached(k + 1, n);
    }
}

/// The four bytes of a mask.
pub open spec fn mask_bytes(mask: nat) -> Seq<u8> {
    seq![
        (mask / 16777216) as u8,
        (mask / 65536 % 256) as u8,
        (mask / 256 % 256) as u8,
        (mask % 256) as u8,
    ]
}

/// The dotted form of the mask of a prefix is read back as that prefix.
pub proof fn law_dotted_mask_reads_back(n: nat)
    requires
        n <= 32,
    ensures
        prefix_of(numbers::dotted(mask_bytes(mask_of(n) as nat))) == Ok::<nat, Seq<char>>(n),
{
    law_mask_reads_back(n);
    lemma_pow2_pos((32 - n) as nat);
    let mask = mask_of(n) as nat;
    let b = mask_bytes(mask);
    let v = byte_values(b);
    lemma_dotted_values(b);
    lemma_mask_bytes(mask);
    assert(v.len() == 4);
}

/// Bytes as numbers.
pub open spec fn byte_values(b: Seq<u8>) -> Seq<nat> {
    b.map_values(|x: u8| x as nat)
}

/// The bytes of a mask make it up.
proof fn lemma_mask_bytes(mask: nat)
    requires
        mask < 4294967296,
    ensures
        mask_value(byte_values(mask_bytes(mask))) == mask,
{
    let v = byte_values(mask_bytes(mask));
    let q1 = mask / 256;
    let q2 = q1 / 256;
    let q3 = q2 / 256;
    assert(mask / 65536 == q2 && mask / 16777216 == q3);
    assert(mask == q1 * 256 + mask % 256);
    assert(q1 == q2 * 256 + q1 % 256);
    assert(q2 == q3 * 256 + q2 % 256);
    assert(q3 < 256);
    assert(v[0] == q3 && v[1] == q2 % 256 && v[2] == q1 % 256 && v[3] == mask % 256);
}

/// The numbers of a dotted address are its bytes.
proof fn lemma_dotted_values(b: Seq<u8>)
    requires
        b.len() == 4,
    ensures
        part_values(text::pieces(numbers::dotted(b), '.')) == Ok::<Seq<nat>, Seq<char>>(
            byte_values(b),
        ),
{
    let v = byte_values(b);
    let parts = text::pieces(numbers::dotted(b), '.');
    numbers::lemma_dotted_pieces(b);
    assert forall|i: int| 0 <= i < 4 implies numbers::bounded_value(
        #[trigger] parts[i],
        10,
        u32::MAX as nat,
    ) == Some(v[i]) by {
        numbers::lemma_decimal_reads_back(b[i] as nat);
    }
    assert(v.take(0) =~= Seq::empty());
    lemma_values_step(parts, v, 0);
    lemma_values_step(parts, v, 1);
    lemma_values_step(parts, v, 2);
    lemma_values_step(parts, v, 3);
    assert(parts.take(4) =~= parts);
    assert(v.take(4) =~= v);
}

/// One more part that spells a number adds that number.
proof fn lemma_values_step(parts: Seq<Seq<char>>, v: Seq<nat>, i: int)
    requires
        0 <= i < parts.len(),
        i < v.len(),
        part_values(parts.take(i)) == Ok::<Seq<nat>, Seq<char>>(v.take(i)),
        numbers::bounded_value(parts[i], 10, u32::MAX as nat) == Some(v[i]),
    ensures
        part_values(parts.take(i + 1)) == Ok::<Seq<nat>, Seq<char>>(v.take(i + 1)),
{
    assert(parts.take(i + 1).drop_last() =~= parts.take(i));
    assert(parts.take(i + 1).last() == parts[i]);
    assert(v.take(i).push(v[i]) =~= v.take(i + 1));
}

/// The ones in the dotted form of the mask of a prefix are as many as the
/// prefix is long, so that counting them and reading the mask agree.
pub proof fn law_prefix_is_counted(n: nat)
    requires
        n <= 32,
    ensures
        total_ones(text::pieces(numbers::dotted(mask_bytes(mask_of(n) as nat)), '.')) == n,
{
    let mask = mask_of(n) as nat;
    let b = mask_bytes(mask);
    lemma_mask_table(n);
    lemma_byte_ones();
    let parts = text::pieces(numbers::dotted(b), '.');
    numbers::lemma_dotted_pieces(b);
    numbers::lemma_decimal_reads_back(b[0] as nat);
    numbers::lemma_decimal_reads_back(b[1] as nat);
    numbers::lemma_decimal_reads_back(b[2] as nat);
    numbers::lemma_decimal_reads_back(b[3] as nat);
    reveal_with_fuel(total_ones, 5);
    assert(parts.drop_last() =~= seq![parts[0], parts[1], parts[2]]);
    assert(parts.drop_last().drop_last() =~= seq![parts[0], parts[1]]);
    assert(parts.drop_last().drop_last().drop_last() =~= seq![parts[0]]);
    assert(parts.drop_last().drop_last().drop_last().drop_last() =~= Seq::empty());
}

/// The bytes that a mask is made of, with the ones in them.
proof fn lemma_byte_ones()
    ensures
        ones(0) == 0,
        ones(128) == 1,
        ones(192) == 2,
        ones(224) == 3,
        ones(240) == 4,
        ones(248) == 5,
        ones(252) == 6,
        ones(254) == 7,
        ones(255) == 8,
{
    reveal_with_fuel(ones, 9);
}

/// The byte with `k` leading ones.
spec fn leading_byte(k: int) -> int {
    if k <= 0 {
        0
    } else if k >= 8 {
        255
    } else {
        256 - pow2((8 - k) as nat)
    }
}

/// The bytes of the mask of a prefix.
proof fn lemma_mask_table(n: nat)
    requires
        n <= 32,
    ensures
        mask_bytes(mask_of(n) as nat) == seq![
            leading_byte(n as int) as u8,
            leading_byte(n - 8) as u8,
            leading_byte(n - 16) as u8,
            leading_byte(n - 24) as u8,
        ],
        forall|k: int|
            #![trigger leading_byte(k)]
            {
                &&& k <= 0 ==> leading_byte(k) == 0
                &&& k == 1 ==> leading_byte(k) == 128
                &&& k == 2 ==> leading_byte(k) == 192
                &&& k == 3 ==> leading_byte(k) == 224
                &&& k == 4 ==> leading_byte(k) == 240
                &&& k == 5 ==> leading_byte(k) == 248
                &&& k == 6 ==> leading_byte(k) == 252
                &&& k == 7 ==> leading_byte(k) == 254
                &&& k >= 8 ==> leading_byte(k) == 255
            },
{
    lemma2_to64();
}

/// A mask has a prefix length only if it is made of that many leading ones:
/// four numbers, of which the low eight bits count, that spell 2 to the 32
/// less 2 to the number of zeros behind them.
pub proof fn law_only_leading_ones_have_a_length(mask: Seq<char>, v: Seq<nat>)
    requires
        part_values(text::pieces(mask, '.')) == Ok::<Seq<nat>, Seq<char>>(v),
    ensures
        v.len() != 4 ==> prefix_of(mask) is Err,
        v.len() == 4 ==> (prefix_of(mask) matches Ok(n) ==> n <= 32 && v[0] % 256 * 16777216 + v[1]
            % 256 * 65536 + v[2] % 256 * 256 + v[3] % 256 + pow2((32 - n) as nat) == 4294967296),
        v.len() == 4 && prefix_of(mask) is Err ==> forall|n: nat|
            n <= 32 ==> v[0] % 256 * 16777216 + v[1] % 256 * 65536 + v[2] % 256 * 256 + v[3] % 256
                + #[trigger] pow2((32 - n) as nat) != 4294967296,
{
    if v.len() == 4 {
        lemma_prefix_found(mask_value(v), 0);
        assert forall|n: nat| n <= 32 && prefix_of(mask) is Err implies v[0] % 256 * 16777216 + v[1]
            % 256 * 65536 + v[2] % 256 * 256 + v[3] % 256 + #[trigger] pow2((32 - n) as nat)
            != 4294967296 by {
            assert(mask_value(v) != mask_of(n));
        }
    }
}

/// The length that is found is that of the mask.
proof fn lemma_prefix_found(mask: nat, k: nat)
    ensures
        prefix_from(mask, k) matches Some(n) ==> k <= n <= 32 && mask == mask_of(n),
        prefix_from(mask, k) is None ==> forall|n: nat|
            k <= n <= 32 ==> mask != #[trigger] mask_of(n),
    decreases 33 - k,
{
    if k <= 32 && mask != mask_of(k) {
        lemma_prefix_found(mask, k + 1);
    }
}

/// The ones of a mask are counted over all its parts; a part that is no number
/// has none. The ones of a number are those of its half and its last bit.
pub proof fn law_ones_add_up(parts: Seq<Seq<char>>, part: Seq<char>, n: nat)
    requires
        n <= u32::MAX,
    ensures
        total_ones(parts.push(numbers::decimal(n))) == total_ones(parts) + ones(n),
        numbers::unsigned_value(part, 10) is None ==> total_ones(parts.push(part)) == total_ones(
            parts,
        ),
        ones(2 * n) == ones(n),
        ones(2 * n + 1) == ones(n) + 1,
        ones(0) == 0,
{
    numbers::lemma_decimal_reads_back(n);
    assert(parts.push(numbers::decimal(n)).drop_last() =~= parts);
    assert(parts.push(part).drop_last() =~= parts);
    assert((2 * n) / 2 == n && (2 * n) % 2 == 0);
    assert((2 * n + 1) / 2 == n && (2 * n + 1) % 2 == 1);
}

} // verus!
