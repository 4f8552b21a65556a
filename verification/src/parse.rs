//! Text forms: unsigned decimal numbers, 256-bit hashes in hex, and the
//! compact text of an unspent output,
//! `{value}@{height}>{offset}>{txid}:{vout}%{derivation_index}`.

use vstd::prelude::*;

use crate::ids::Hash32;
use crate::text::{chars_of, decimal, find_char, push_chars, push_decimal, string_from_chars};
use crate::utxo::{Utxo, UtxoV};

verus! {

/// Error parsing the text of wallet data.
#[derive(Clone, Copy, PartialEq, Eq, Structural, Debug)]
pub struct FromStrError;

pub open spec fn is_digit(c: char) -> bool {
    '0' <= c && c <= '9'
}

pub open spec fn digit_value(c: char) -> nat {
    (c as int - '0' as int) as nat
}

pub open spec fn all_digits(s: Seq<char>) -> bool {
    forall|i: int| 0 <= i < s.len() ==> is_digit(#[trigger] s[i])
}

/// The number a string of decimal digits stands for.
pub open spec fn digits_value(s: Seq<char>) -> nat
    decreases s.len(),
{
    if s.len() == 0 {
        0
    } else {
        digits_value(s.drop_last()) * 10 + digit_value(s.last())
    }
}

/// Parsing an unsigned integer of at most `max`, as Rust's `str::parse`
/// does: an optional `+`, then one or more decimal digits.
pub open spec fn parse_uint_spec(s: Seq<char>, max: nat) -> Option<nat> {
    let t = if s.len() > 0 && s[0] == '+' {
        s.skip(1)
    } else {
        s
    };
    if t.len() > 0 && all_digits(t) && digits_value(t) <= max {
        Some(digits_value(t))
    } else {
        None
    }
}

proof fn lemma_digits_monotone(s: Seq<char>, k: int)
    requires
        0 <= k <= s.len(),
    ensures
        digits_value(s.take(k)) <= digits_value(s),
    decreases s.len(),
{
    if k < s.len() {
        lemma_digits_monotone(s.drop_last(), k);
        assert(s.drop_last().take(k) =~= s.take(k));
    } else {
        assert(s.take(k) =~= s);
    }
}

/// Parses `v[from..to]` as an unsigned integer of at most `max`.
pub fn parse_uint(v: &Vec<char>, from: usize, to: usize, max: u64) -> (r: Option<u64>)
    requires
        from <= to <= v@.len(),
    ensures
        match parse_uint_spec(v@.subrange(from as int, to as int), max as nat) {
            Some(n) => r == Some(n as u64),
            None => r is None,
        },
{
    let ghost s = v@.subrange(from as int, to as int);
    let mut start = from;
    if from < to && v[from] == '+' {
        assert(s[0] == v@[from as int]);
        start = from + 1;
        assert(s.skip(1) =~= v@.subrange(start as int, to as int));
    } else {
        assert(s =~= v@.subrange(start as int, to as int));
    }
    let ghost t = v@.subrange(start as int, to as int);
    assert((if s.len() > 0 && s[0] == '+' { s.skip(1) } else { s }) == t);
    if start == to {
        assert(t.len() == 0);
        return None;
    }
    let mut i = start;
    while i < to
        invariant
            start <= i <= to,
            from <= start,
            to <= v@.len(),
            t == v@.subrange(start as int, to as int),
            s == v@.subrange(from as int, to as int),
            (if s.len() > 0 && s[0] == '+' { s.skip(1) } else { s }) == t,
            forall|j: int| start <= j < i ==> is_digit(#[trigger] v@[j]),
        decreases to - i,
    {
        if !(v[i] >= '0' && v[i] <= '9') {
            assert(!is_digit(t[i - start]));
            return None;
        }
        i = i + 1;
    }
    assert(all_digits(t)) by {
        assert forall|j: int| 0 <= j < t.len() implies is_digit(#[trigger] t[j]) by {
            assert(t[j] == v@[start + j]);
        }
    }
    let mut acc: u64 = 0;
    let mut i = start;
    while i < to
        invariant
            start <= i <= to,
            from <= start,
            to <= v@.len(),
            t == v@.subrange(start as int, to as int),
            s == v@.subrange(from as int, to as int),
            (if s.len() > 0 && s[0] == '+' { s.skip(1) } else { s }) == t,
            all_digits(t),
            acc == digits_value(t.take(i - start)),
            acc <= max,
        decreases to - i,
    {
        proof {
            assert(t[i - start] == v@[i as int]);
            assert(is_digit(t[i - start]));
            assert(t.take(i - start + 1).drop_last() =~= t.take(i - start));
            assert(t.take(i - start + 1).last() == v@[i as int]);
        }
        let d = (v[i] as u32 - '0' as u32) as u64;
        if d > max {
            proof {
                lemma_digits_monotone(t, i - start + 1);
            }
            return None;
        }
        if acc > (max - d) / 10 {
            proof {
                assert(acc * 10 + d > max) by (nonlinear_arith)
                    requires
                        acc > (max - d) / 10,
                        d <= max,
                ;
                lemma_digits_monotone(t, i - start + 1);
            }
            return None;
        }
        assert(acc * 10 + d <= max) by (nonlinear_arith)
            requires
                acc <= (max - d) / 10,
                d <= max,
        ;
        acc = acc * 10 + d;
        i = i + 1;
    }
    assert(t.take(t.len() as int) =~= t);
    Some(acc)
}

/// The value of a hex digit, either case.
pub open spec fn hex_digit_value(c: char) -> Option<nat> {
    if '0' <= c && c <= '9' {
        Some((c as int - '0' as int) as nat)
    } else if 'a' <= c && c <= 'f' {
        Some((c as int - 'a' as int + 10) as nat)
    } else if 'A' <= c && c <= 'F' {
        Some((c as int - 'A' as int + 10) as nat)
    } else {
        None
    }
}

pub open spec fn all_hex(s: Seq<char>) -> bool {
    forall|i: int| 0 <= i < s.len() ==> #[trigger] hex_digit_value(s[i]) is Some
}

/// The number a string of hex digits stands for.
pub open spec fn hex_value(s: Seq<char>) -> nat
    decreases s.len(),
{
    if s.len() == 0 {
        0
    } else {
        hex_value(s.drop_last()) * 16 + hex_digit_value(s.last())->0
    }
}

pub open spec fn pow16(n: nat) -> nat
    decreases n,
{
    if n == 0 {
        1
    } else {
        16 * pow16((n - 1) as nat)
    }
}

proof fn lemma_hex_bound(s: Seq<char>)
    requires
        all_hex(s),
    ensures
        hex_value(s) < pow16(s.len()),
    decreases s.len(),
{
    if s.len() > 0 {
        lemma_hex_bound(s.drop_last());
        let v = hex_value(s.drop_last());
        let p = pow16((s.len() - 1) as nat);
        let d = hex_digit_value(s.last())->0;
        assert(hex_digit_value(s[s.len() - 1]) is Some);
        assert(d < 16);
        assert(v * 16 + d < 16 * p) by (nonlinear_arith)
            requires
                v < p,
                d < 16,
        ;
    }
}

/// A 256-bit hash from its 64 hex digits, in the order they are shown.
pub open spec fn hash_of_hex(s: Seq<char>) -> Hash32 {
    Hash32 { hi: hex_value(s.take(32)) as u128, lo: hex_value(s.skip(32)) as u128 }
}

/// Parses 32 hex digits at `v[from..]` into a number.
fn parse_hex_u128(v: &Vec<char>, from: usize) -> (r: Option<u128>)
    requires
        from + 32 <= v@.len(),
    ensures
        match r {
            Some(n) => all_hex(v@.subrange(from as int, from + 32)) && n == hex_value(v@.subrange(from as int, from + 32)),
            None => !all_hex(v@.subrange(from as int, from + 32)),
        },
{
    let ghost t = v@.subrange(from as int, from + 32);
    let n = v.len();
    let mut acc: u128 = 0;
    let mut i: usize = 0;
    proof {
        reveal_with_fuel(pow16, 33);
        assert(pow16(32) == 0x1_0000_0000_0000_0000_0000_0000_0000_0000);
    }
    while i < 32
        invariant
            i <= 32,
            from + 32 <= v@.len(),
            n == v@.len(),
            t == v@.subrange(from as int, from + 32),
            forall|j: int| 0 <= j < i ==> #[trigger] hex_digit_value(t[j]) is Some,
            acc == hex_value(t.take(i as int)),
            acc < pow16(i as nat),
            pow16(32) == 0x1_0000_0000_0000_0000_0000_0000_0000_0000,
        decreases 32 - i,
    {
        assert(from + i < v@.len());
        let c = v[from + i];
        assert(t[i as int] == c);
        let d: u128 = if c >= '0' && c <= '9' {
            (c as u32 - '0' as u32) as u128
        } else if c >= 'a' && c <= 'f' {
            (c as u32 - 'a' as u32 + 10) as u128
        } else if c >= 'A' && c <= 'F' {
            (c as u32 - 'A' as u32 + 10) as u128
        } else {
            assert(hex_digit_value(t[i as int]) is None);
            return None;
        };
        proof {
            assert(t.take(i + 1).drop_last() =~= t.take(i as int));
            assert(t.take(i + 1).last() == c);
            lemma_pow16_mono(i as nat + 1, 32);
            let p = pow16(i as nat);
            assert(acc * 16 + d < 16 * p) by (nonlinear_arith)
                requires
                    acc < p,
                    d < 16,
            ;
        }
        acc = acc * 16 + d;
        i = i + 1;
    }
    assert(t.take(32) =~= t);
    Some(acc)
}

proof fn lemma_pow16_mono(a: nat, b: nat)
    requires
        a <= b,
    ensures
        pow16(a) <= pow16(b),
    decreases b,
{
    if a < b {
        lemma_pow16_mono(a, (b - 1) as nat);
    }
}

/// Parses a 256-bit hash from its 64 hex digits at `v[from..]`.
pub fn parse_hash(v: &Vec<char>, from: usize, to: usize) -> (r: Option<Hash32>)
    requires
        from <= to <= v@.len(),
    ensures
        ({
            let s = v@.subrange(from as int, to as int);
            match r {
                Some(h) => s.len() == 64 && all_hex(s) && h == hash_of_hex(s),
                None => !(s.len() == 64 && all_hex(s)),
            }
        }),
{
    let ghost s = v@.subrange(from as int, to as int);
    if to - from != 64 {
        return None;
    }
    assert(s.take(32) =~= v@.subrange(from as int, from + 32));
    assert(s.skip(32) =~= v@.subrange(from + 32, from + 64));
    let hi = match parse_hex_u128(v, from) {
        Some(h) => h,
        None => {
            proof {
                if all_hex(s) {
                    assert forall|j: int| 0 <= j < 32 implies #[trigger] hex_digit_value(s.take(32)[j]) is Some by {
                        assert(s.take(32)[j] == s[j]);
                    }
                }
            }
            return None;
        },
    };
    let lo = match parse_hex_u128(v, from + 32) {
        Some(l) => l,
        None => {
            proof {
                if all_hex(s) {
                    assert forall|j: int| 0 <= j < 32 implies #[trigger] hex_digit_value(s.skip(32)[j]) is Some by {
                        assert(s.skip(32)[j] == s[j + 32]);
                    }
                }
            }
            return None;
        },
    };
    proof {
        assert forall|j: int| 0 <= j < 64 implies #[trigger] hex_digit_value(s[j]) is Some by {
            if j < 32 {
                assert(s.take(32)[j] == s[j]);
            } else {
                assert(s.skip(32)[j - 32] == s[j]);
            }
        }
    }
    Some(Hash32 { hi, lo })
}

/// The hex digit of `d` (lower case).
pub open spec fn hex_char(d: nat) -> char {
    if d < 10 {
        ((d + 48) as u8) as char
    } else {
        ((d + 87) as u8) as char
    }
}

/// The `n` lowest hex digits of `v`, most significant first.
pub open spec fn hex_text(v: nat, n: nat) -> Seq<char>
    decreases n,
{
    if n == 0 {
        Seq::empty()
    } else {
        hex_text(v / 16, (n - 1) as nat) + seq![hex_char(v % 16)]
    }
}

/// The 64 hex digits of a hash, in the order they are shown.
pub open spec fn hash_hex(h: Hash32) -> Seq<char> {
    hex_text(h.hi as nat, 32) + hex_text(h.lo as nat, 32)
}

fn hex_digit_char(d: u128) -> (c: char)
    requires
        d < 16,
    ensures
        c == hex_char(d as nat),
{
    if d < 10 {
        ((d as u8) + 48) as char
    } else {
        ((d as u8) + 87) as char
    }
}

/// Appends the `n` lowest hex digits of `v`.
pub(crate) fn push_hex(out: &mut Vec<char>, v: u128, n: usize)
    ensures
        final(out)@ == old(out)@ + hex_text(v as nat, n as nat),
    decreases n,
{
    if n > 0 {
        push_hex(out, v / 16, n - 1);
        out.push(hex_digit_char(v % 16));
        assert(out@ =~= old(out)@ + hex_text(v as nat, n as nat));
    } else {
        assert(out@ =~= old(out)@ + hex_text(v as nat, n as nat));
    }
}

// --- Unspent output text

/// Characters separating the fields of an unspent output text.
pub open spec fn utxo_seps() -> Seq<char> {
    seq!['@', '>', '%', '=', ':']
}

/// The fields of a text split at every character of `seps` (an empty text
/// has one empty field).
pub open spec fn fields_by(s: Seq<char>, seps: Seq<char>) -> Seq<Seq<char>>
    decreases s.len(),
{
    if s.len() == 0 {
        seq![Seq::empty()]
    } else {
        let f = fields_by(s.drop_last(), seps);
        if seps.contains(s.last()) {
            f.push(Seq::empty())
        } else {
            f.update(f.len() - 1, f.last().push(s.last()))
        }
    }
}

/// The fields of an unspent output text.
pub open spec fn utxo_fields(s: Seq<char>) -> Seq<Seq<char>> {
    fields_by(s, utxo_seps())
}

pub(crate) proof fn lemma_fields_nonempty(s: Seq<char>, seps: Seq<char>)
    ensures
        fields_by(s, seps).len() >= 1,
    decreases s.len(),
{
    if s.len() > 0 {
        lemma_fields_nonempty(s.drop_last(), seps);
    }
}

/// The text of an unspent output (its tweak and address are not shown).
pub open spec fn utxo_text(u: UtxoV) -> Seq<char> {
    decimal(u.value as nat) + seq!['@'] + decimal(u.height as nat) + seq!['>'] + decimal(u.offset as nat) + seq!['>']
        + hash_hex(u.txid) + seq![':'] + decimal(u.vout as nat) + seq!['%'] + decimal(u.derivation_index as nat)
}

/// The outcome of parsing the text of an unspent output: six fields (value,
/// height, offset, txid, vout, derivation index) and an optional seventh,
/// the address, which is kept only when it parses (`address`). The tweak is
/// never set.
pub open spec fn utxo_parse_spec(s: Seq<char>, address: spec_fn(Seq<char>) -> Option<Seq<char>>) -> Option<UtxoV> {
    let f = utxo_fields(s);
    if f.len() != 6 && f.len() != 7 {
        None
    } else {
        let value = parse_uint_spec(f[0], u64::MAX as nat);
        let height = parse_uint_spec(f[1], u32::MAX as nat);
        let offset = parse_uint_spec(f[2], u16::MAX as nat);
        let vout = parse_uint_spec(f[4], u16::MAX as nat);
        let index = parse_uint_spec(f[5], u32::MAX as nat);
        if value is None || height is None || offset is None || vout is None || !(f[3].len() == 64
            && all_hex(f[3])) || index is None || index->0 >= 0x8000_0000 {
            None
        } else {
            Some(
                UtxoV {
                    value: value->0 as u64,
                    height: height->0 as u32,
                    offset: offset->0 as u16,
                    txid: hash_of_hex(f[3]),
                    vout: vout->0 as u16,
                    derivation_index: index->0 as u32,
                    tweak: None,
                    address: if f.len() == 7 { address(f[6]) } else { None },
                },
            )
        }
    }
}

/// The normal text of a bitcoin address, when the text is one.
pub uninterp spec fn bitcoin_address(text: Seq<char>) -> Option<Seq<char>>;

/// `bitcoin::Address::from_str`, giving the address's own text when it
/// parses.
#[verifier::external_body]
pub(crate) fn parse_address(text: &str) -> (r: Option<String>)
    ensures
        match r {
            Some(a) => bitcoin_address(text@) == Some(a@),
            None => bitcoin_address(text@) is None,
        },
{
    text.parse::<bitcoin::Address>().ok().map(|a| a.to_string())
}

/// Where the `k`-th field starts, given the positions `e` of the separators.
pub open spec fn field_start(e: Seq<usize>, k: int) -> int {
    if k == 0 {
        0
    } else {
        e[k - 1] + 1
    }
}

/// The `k`-th field of `fs` lies between its start and `e[k]` in `v`.
pub open spec fn field_at(v: Seq<char>, e: Seq<usize>, fs: Seq<Seq<char>>, k: int) -> bool {
    &&& field_start(e, k) <= e[k] <= v.len()
    &&& v.subrange(field_start(e, k), e[k] as int) == fs[k]
}

/// Positions of the separators of a text, with the text's length last.
pub(crate) fn field_ends(v: &Vec<char>, seps: &Vec<char>) -> (r: Vec<usize>)
    ensures
        r@.len() == fields_by(v@, seps@).len(),
        forall|k: int| 0 <= k < r@.len() ==> #[trigger] field_at(v@, r@, fields_by(v@, seps@), k),
{
    let mut ends: Vec<usize> = Vec::new();
    let mut i: usize = 0;
    proof {
        assert(v@.take(0) =~= Seq::<char>::empty());
        assert(v@.subrange(0, 0) =~= Seq::<char>::empty());
    }
    while i < v.len()
        invariant
            i <= v@.len(),
            ends@.len() + 1 == fields_by(v@.take(i as int), seps@).len(),
            forall|k: int| 0 <= k < ends@.len() ==> #[trigger] field_at(v@, ends@, fields_by(v@.take(i as int), seps@), k),
            forall|k: int| 0 <= k < ends@.len() ==> ends@[k] < i,
            field_start(ends@, ends@.len() as int) <= i,
            v@.subrange(field_start(ends@, ends@.len() as int), i as int) == fields_by(v@.take(i as int), seps@).last(),
        decreases v@.len() - i,
    {
        let c = v[i];
        let ghost f = fields_by(v@.take(i as int), seps@);
        proof {
            assert(v@.take(i + 1).drop_last() =~= v@.take(i as int));
            assert(v@.take(i + 1).last() == c);
            lemma_fields_nonempty(v@.take(i as int), seps@);
        }
        let ghost start = field_start(ends@, ends@.len() as int);
        let ghost old_ends = ends@;
        if find_char(seps, c).is_some() {
            ends.push(i);
            proof {
                let g = fields_by(v@.take(i + 1), seps@);
                assert(g == f.push(Seq::empty()));
                assert(v@.subrange(i + 1, i + 1) =~= Seq::<char>::empty());
                assert(field_start(ends@, ends@.len() as int) == i + 1);
                assert forall|k: int| 0 <= k < ends@.len() implies #[trigger] field_at(v@, ends@, g, k) by {
                    if k < old_ends.len() {
                        assert(field_at(v@, old_ends, f, k));
                        assert(field_start(ends@, k) == field_start(old_ends, k));
                        assert(g[k] == f[k]);
                    } else {
                        assert(field_start(ends@, k) == start);
                        assert(g[k] == f.last());
                    }
                }
            }
        } else {
            proof {
                let g = fields_by(v@.take(i + 1), seps@);
                assert(g == f.update(f.len() - 1, f.last().push(c)));
                assert(v@.subrange(start, i + 1) =~= v@.subrange(start, i as int).push(c));
                assert forall|k: int| 0 <= k < ends@.len() implies #[trigger] field_at(v@, ends@, g, k) by {
                    assert(field_at(v@, old_ends, f, k));
                    assert(g[k] == f[k]);
                }
            }
        }
        i = i + 1;
    }
    assert(v@.take(i as int) =~= v@);
    proof {
        lemma_fields_nonempty(v@, seps@);
    }
    let ghost old_ends = ends@;
    let n = v.len();
    ends.push(n);
    proof {
        assert forall|k: int| 0 <= k < ends@.len() implies #[trigger] field_at(v@, ends@, fields_by(v@, seps@), k) by {
            if k < old_ends.len() {
                assert(field_at(v@, old_ends, fields_by(v@, seps@), k));
                assert(field_start(ends@, k) == field_start(old_ends, k));
            } else {
                assert(field_start(ends@, k) == field_start(old_ends, old_ends.len() as int));
            }
        }
    }
    ends
}

impl Utxo {
    /// The text of the output (its tweak and address are not shown).
    pub fn to_string(&self) -> (r: String)
        ensures
            r@ == utxo_text(self@),
    {
        let mut out: Vec<char> = Vec::new();
        push_decimal(&mut out, self.value);
        out.push('@');
        push_decimal(&mut out, self.height as u64);
        out.push('>');
        push_decimal(&mut out, self.offset as u64);
        out.push('>');
        push_hex(&mut out, self.txid.hi, 32);
        push_hex(&mut out, self.txid.lo, 32);
        out.push(':');
        push_decimal(&mut out, self.vout as u64);
        out.push('%');
        push_decimal(&mut out, self.derivation_index as u64);
        assert(out@ =~= utxo_text(self@));
        string_from_chars(out.as_slice())
    }

    /// Parses the text of an output (see `utxo_parse_spec`).
    pub fn from_str(s: &str) -> (r: Result<Utxo, FromStrError>)
        ensures
            match utxo_parse_spec(s@, |t: Seq<char>| bitcoin_address(t)) {
                Some(u) => r matches Ok(x) && x@ == u,
                None => r is Err,
            },
    {
        let v = chars_of(s);
        let seps = vec!['@', '>', '%', '=', ':'];
        assert(seps@ == utxo_seps());
        let ends = field_ends(&v, &seps);
        let ghost f = utxo_fields(v@);
        if ends.len() != 6 && ends.len() != 7 {
            return Err(FromStrError);
        }
        let ghost e = ends@;
        assert(field_at(v@, e, f, 0));
        assert(field_at(v@, e, f, 1));
        assert(field_at(v@, e, f, 2));
        assert(field_at(v@, e, f, 3));
        assert(field_at(v@, e, f, 4));
        assert(field_at(v@, e, f, 5));
        let value = parse_uint(&v, 0, ends[0], u64::MAX);
        let height = parse_uint(&v, ends[0] + 1, ends[1], u32::MAX as u64);
        let offset = parse_uint(&v, ends[1] + 1, ends[2], u16::MAX as u64);
        let txid = parse_hash(&v, ends[2] + 1, ends[3]);
        let vout = parse_uint(&v, ends[3] + 1, ends[4], u16::MAX as u64);
        let index = parse_uint(&v, ends[4] + 1, ends[5], u32::MAX as u64);
        match (value, height, offset, txid, vout, index) {
            (Some(value), Some(height), Some(offset), Some(txid), Some(vout), Some(index)) => {
                if index >= 0x8000_0000 {
                    return Err(FromStrError);
                }
                let address = if ends.len() == 7 {
                    assert(field_at(v@, e, f, 6));
                    let mut a: Vec<char> = Vec::new();
                    push_chars(&mut a, &v, ends[5] + 1, ends[6]);
                    let text = string_from_chars(a.as_slice());
                    assert(text@ == f[6]);
                    parse_address(text.as_str())
                } else {
                    None
                };
                Ok(
                    Utxo {
                        value,
                        height: height as u32,
                        offset: offset as u16,
                        txid,
                        vout: vout as u16,
                        derivation_index: index as u32,
                        tweak: None,
                        address,
                    },
                )
            },
            _ => Err(FromStrError),
        }
    }
}

} // verus!
