//! What the text forms give back: an unspent output written out and read
//! again is the same output.

use vstd::prelude::*;

use crate::encoding::{base64_bytes, psbt_parse_spec, psbt_reencoded, PsbtParseError};
use crate::confirm::{conf_seps, tx_confirmation_spec, tx_confirmation_text, TxConfirmation};
use crate::ids::Hash32;
use crate::parse::{
    all_digits, all_hex, digit_value, digits_value, fields_by, hash_hex, hash_of_hex, hex_char,
    hex_digit_value, hex_text, hex_value, is_digit, parse_uint_spec, pow16, utxo_fields,
    utxo_parse_spec, utxo_seps, utxo_text,
};
use crate::text::{decimal, digit_char};
use crate::utxo::UtxoV;

verus! {

/// Whether a text holds none of the separators `seps`.
pub open spec fn free_of(s: Seq<char>, seps: Seq<char>) -> bool {
    forall|i: int| 0 <= i < s.len() ==> !seps.contains(#[trigger] s[i])
}

proof fn lemma_digit_char(d: int)
    requires
        0 <= d < 10,
    ensures
        is_digit(digit_char(d)),
        digit_value(digit_char(d)) == d,
{
}

/// The decimal text of a number is digits that read back as the number.
pub(crate) proof fn lemma_decimal(n: nat)
    ensures
        decimal(n).len() > 0,
        all_digits(decimal(n)),
        digits_value(decimal(n)) == n,
    decreases n,
{
    if n < 10 {
        lemma_digit_char(n as int);
        assert(decimal(n) == seq![digit_char(n as int)]);
        assert(decimal(n).drop_last() =~= Seq::<char>::empty());
        assert(digits_value(decimal(n)) == digits_value(decimal(n).drop_last()) * 10 + digit_value(decimal(n).last()));
    } else {
        lemma_decimal(n / 10);
        lemma_digit_char((n % 10) as int);
        let s = decimal(n);
        assert(s.drop_last() =~= decimal(n / 10));
        assert(s.last() == digit_char((n % 10) as int));
        assert(digits_value(s) == digits_value(s.drop_last()) * 10 + digit_value(s.last()));
        assert((n / 10) * 10 + n % 10 == n);
        assert forall|i: int| 0 <= i < s.len() implies is_digit(#[trigger] s[i]) by {
            if i < s.len() - 1 {
                assert(s[i] == decimal(n / 10)[i]);
            }
        }
    }
}

/// A number up to `max` reads back from its decimal text.
pub(crate) proof fn lemma_decimal_parses(n: nat, max: nat)
    requires
        n <= max,
    ensures
        parse_uint_spec(decimal(n), max) == Some(n),
{
    lemma_decimal(n);
    assert(is_digit(decimal(n)[0]));
}

/// Whether no separator is a hex digit.
pub open spec fn seps_not_hex(seps: Seq<char>) -> bool {
    forall|k: int| 0 <= k < seps.len() ==> hex_digit_value(#[trigger] seps[k]) is None
}

/// A hex digit is no separator.
proof fn lemma_hex_not_sep(c: char, seps: Seq<char>)
    requires
        seps_not_hex(seps),
        hex_digit_value(c) is Some,
    ensures
        !seps.contains(c),
{
    if seps.contains(c) {
        let k = choose|k: int| 0 <= k < seps.len() && seps[k] == c;
        assert(hex_digit_value(seps[k]) is None);
    }
}

/// Decimal digits are no separators.
proof fn lemma_decimal_free(n: nat, seps: Seq<char>)
    requires
        seps_not_hex(seps),
    ensures
        free_of(decimal(n), seps),
{
    lemma_decimal(n);
    let s = decimal(n);
    assert forall|i: int| 0 <= i < s.len() implies !seps.contains(#[trigger] s[i]) by {
        assert(is_digit(s[i]));
        lemma_hex_not_sep(s[i], seps);
    }
}

proof fn lemma_hex_char(d: nat)
    requires
        d < 16,
    ensures
        hex_digit_value(hex_char(d)) == Some(d),
{
    let c = hex_char(d);
    if d < 10 {
        assert(c as int == d + 48);
    } else {
        assert(c as int == d + 87);
    }
}

/// The hex text of a number that fits reads back as the number.
proof fn lemma_hex_text(v: nat, n: nat)
    requires
        v < pow16(n),
    ensures
        hex_text(v, n).len() == n,
        all_hex(hex_text(v, n)),
        hex_value(hex_text(v, n)) == v,
    decreases n,
{
    if n == 0 {
        assert(v == 0);
    } else {
        let p = pow16((n - 1) as nat);
        assert(v / 16 < p);
        lemma_hex_text(v / 16, (n - 1) as nat);
        lemma_hex_char(v % 16);
        let s = hex_text(v, n);
        let t = hex_text(v / 16, (n - 1) as nat);
        assert(s.drop_last() =~= t);
        assert(s.last() == hex_char(v % 16));
        assert forall|i: int| 0 <= i < s.len() implies #[trigger] hex_digit_value(s[i]) is Some by {
            if i < s.len() - 1 {
                assert(s[i] == t[i]);
            }
        }
    }
}

/// The hex text of a hash reads back as the hash.
proof fn lemma_hash_hex(h: Hash32)
    ensures
        hash_hex(h).len() == 64,
        all_hex(hash_hex(h)),
        hash_of_hex(hash_hex(h)) == h,
{
    reveal_with_fuel(pow16, 33);
    assert(pow16(32) == 0x1_0000_0000_0000_0000_0000_0000_0000_0000);
    lemma_hex_text(h.hi as nat, 32);
    lemma_hex_text(h.lo as nat, 32);
    let a = hex_text(h.hi as nat, 32);
    let b = hex_text(h.lo as nat, 32);
    let s = hash_hex(h);
    assert(s.take(32) =~= a);
    assert(s.skip(32) =~= b);
    assert forall|i: int| 0 <= i < s.len() implies #[trigger] hex_digit_value(s[i]) is Some by {
        if i < 32 {
            assert(s[i] == a[i]);
        } else {
            assert(s[i] == b[i - 32]);
        }
    }
}

/// The hex text of a hash holds no separator.
proof fn lemma_hash_free(h: Hash32, seps: Seq<char>)
    requires
        seps_not_hex(seps),
    ensures
        free_of(hash_hex(h), seps),
{
    lemma_hash_hex(h);
    let s = hash_hex(h);
    assert forall|i: int| 0 <= i < s.len() implies !seps.contains(#[trigger] s[i]) by {
        assert(hex_digit_value(s[i]) is Some);
        lemma_hex_not_sep(s[i], seps);
    }
}

/// A text free of separators is a single field.
proof fn lemma_fields_single(t: Seq<char>, seps: Seq<char>)
    requires
        free_of(t, seps),
    ensures
        fields_by(t, seps) == seq![t],
    decreases t.len(),
{
    if t.len() > 0 {
        let u = t.drop_last();
        assert(free_of(u, seps)) by {
            assert forall|i: int| 0 <= i < u.len() implies !seps.contains(#[trigger] u[i]) by {
                assert(u[i] == t[i]);
            }
        }
        lemma_fields_single(u, seps);
        assert(!seps.contains(t[t.len() - 1]));
        assert(u.push(t.last()) =~= t);
        assert(seq![u].update(0, u.push(t.last())) =~= seq![t]);
    } else {
        assert(t =~= Seq::<char>::empty());
    }
}

/// A separator followed by a text free of separators adds that text as a
/// last field.
proof fn lemma_fields_append(s: Seq<char>, c: char, t: Seq<char>, seps: Seq<char>)
    requires
        seps.contains(c),
        free_of(t, seps),
    ensures
        fields_by(s + seq![c] + t, seps) == fields_by(s, seps).push(t),
    decreases t.len(),
{
    let w = s + seq![c] + t;
    if t.len() == 0 {
        assert(w.drop_last() =~= s);
        assert(w.last() == c);
        assert(t =~= Seq::<char>::empty());
    } else {
        let u = t.drop_last();
        assert(free_of(u, seps)) by {
            assert forall|i: int| 0 <= i < u.len() implies !seps.contains(#[trigger] u[i]) by {
                assert(u[i] == t[i]);
            }
        }
        lemma_fields_append(s, c, u, seps);
        assert(w.drop_last() =~= s + seq![c] + u);
        assert(w.last() == t[t.len() - 1]);
        let f = fields_by(s + seq![c] + u, seps);
        assert(f.last() == u);
        assert(u.push(t.last()) =~= t);
        assert(f.update(f.len() - 1, u.push(t.last())) =~= fields_by(s, seps).push(t));
    }
}

/// An unspent output written out and read again is the same output, when
/// it has neither tweak nor address (which the text does not show) and its
/// derivation index is not hardened (which the reading refuses).
pub proof fn law_utxo_text_reads_back(u: UtxoV, address: spec_fn(Seq<char>) -> Option<Seq<char>>)
    requires
        u.tweak is None,
        u.address is None,
        u.derivation_index < 0x8000_0000,
    ensures
        utxo_parse_spec(utxo_text(u), address) == Some(u),
{
    let seps = utxo_seps();
    let d0 = decimal(u.value as nat);
    let d1 = decimal(u.height as nat);
    let d2 = decimal(u.offset as nat);
    let hh = hash_hex(u.txid);
    let d4 = decimal(u.vout as nat);
    let d5 = decimal(u.derivation_index as nat);
    assert(seps_not_hex(seps)) by {
        assert(seps[0] == '@' && seps[1] == '>' && seps[2] == '%' && seps[3] == '=' && seps[4] == ':');
    }
    lemma_decimal_free(u.value as nat, seps);
    lemma_decimal_free(u.height as nat, seps);
    lemma_decimal_free(u.offset as nat, seps);
    lemma_decimal_free(u.vout as nat, seps);
    lemma_decimal_free(u.derivation_index as nat, seps);
    lemma_hash_hex(u.txid);
    lemma_hash_free(u.txid, seps);
    assert(seps.contains('@') && seps.contains('>') && seps.contains(':') && seps.contains('%')) by {
        assert(seps[0] == '@' && seps[1] == '>' && seps[2] == '%' && seps[4] == ':');
    }
    let s1 = d0;
    let s2 = s1 + seq!['@'] + d1;
    let s3 = s2 + seq!['>'] + d2;
    let s4 = s3 + seq!['>'] + hh;
    let s5 = s4 + seq![':'] + d4;
    let s6 = s5 + seq!['%'] + d5;
    lemma_fields_single(s1, seps);
    lemma_fields_append(s1, '@', d1, seps);
    lemma_fields_append(s2, '>', d2, seps);
    lemma_fields_append(s3, '>', hh, seps);
    lemma_fields_append(s4, ':', d4, seps);
    lemma_fields_append(s5, '%', d5, seps);
    assert(s6 =~= utxo_text(u));
    let f = utxo_fields(utxo_text(u));
    assert(f =~= seq![d0, d1, d2, hh, d4, d5]);
    lemma_decimal_parses(u.value as nat, u64::MAX as nat);
    lemma_decimal_parses(u.height as nat, u32::MAX as nat);
    lemma_decimal_parses(u.offset as nat, u16::MAX as nat);
    lemma_decimal_parses(u.vout as nat, u16::MAX as nat);
    lemma_decimal_parses(u.derivation_index as nat, u32::MAX as nat);
}

/// A block confirmation written out and read again is the same
/// confirmation. (A channel state is written with its number first, which
/// the reading takes for the channel id, so it does not read back.)
pub proof fn law_block_confirmation_reads_back(c: TxConfirmation)
    requires
        c is Blockchain,
    ensures
        tx_confirmation_spec(tx_confirmation_text(c)) == Some(c),
{
    let (h, hash) = match c {
        TxConfirmation::Blockchain { block_height, block_hash } => (block_height, block_hash),
        _ => (0u32, Hash32 { hi: 0, lo: 0 }),
    };
    let seps = conf_seps();
    assert(seps_not_hex(seps)) by {
        assert(seps[0] == ':' && seps[1] == '@');
    }
    assert(seps.contains(':')) by {
        assert(seps[0] == ':');
    }
    let d = decimal(h as nat);
    let hh = hash_hex(hash);
    lemma_decimal_free(h as nat, seps);
    lemma_hash_hex(hash);
    lemma_hash_free(hash, seps);
    lemma_fields_single(d, seps);
    lemma_fields_append(d, ':', hh, seps);
    let t = tx_confirmation_text(c);
    assert(t =~= d + seq![':'] + hh);
    assert(fields_by(t, seps) =~= seq![d, hh]);
    assert(t[d.len() as int] == ':');
    assert(t.contains(':'));
    lemma_decimal_parses(h as nat, u32::MAX as nat);
}

/// A PSBT held in its own serialization is read back from any text that
/// Base64-decodes to it, such as the text it is written as.
pub proof fn law_psbt_text_reads_back(p: Seq<u8>, text: Seq<char>)
    requires
        psbt_reencoded(p) == Some(p),
        base64_bytes(text) == Some(p),
    ensures
        psbt_parse_spec(text) == Ok::<Seq<u8>, PsbtParseError>(p),
{
}

} // verus!
