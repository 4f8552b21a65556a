//! Where and when a transaction was confirmed, and how an invoice was paid,
//! with their text forms.

use vstd::prelude::*;

use crate::ids::{Hash32, Txid};
use crate::parse::{
    all_hex, field_at, field_ends, fields_by, hash_hex, hash_of_hex, lemma_fields_nonempty, parse_hash,
    parse_uint, parse_uint_spec, push_hex, FromStrError,
};
use crate::text::{chars_of, decimal, find_char, push_chars, push_decimal, string_from_chars};

verus! {

/// Characters that separate the parts of a confirmation text.
pub open spec fn conf_seps() -> Seq<char> {
    seq![':', '@']
}

/// Whether a text is 64 hex digits, the text form of a 256-bit hash.
pub open spec fn is_hash_text(s: Seq<char>) -> bool {
    s.len() == 64 && all_hex(s)
}

/// A transaction confirmation: in a block, or in a state of a payment
/// channel.
#[derive(Clone, Copy, PartialEq, Eq, Structural, Debug)]
pub enum TxConfirmation {
    Blockchain { block_height: u32, block_hash: Hash32 },
    Lightning { channel_id: Hash32, state_no: u64 },
}

/// The confirmation a text stands for: `height:block_hash` when the text has
/// a colon, else `channel_id@state_no`; exactly two parts either way.
pub open spec fn tx_confirmation_spec(s: Seq<char>) -> Option<TxConfirmation> {
    let f = fields_by(s, conf_seps());
    if f.len() != 2 {
        None
    } else if s.contains(':') {
        let h = parse_uint_spec(f[0], u32::MAX as nat);
        if h is Some && is_hash_text(f[1]) {
            Some(TxConfirmation::Blockchain { block_height: h->0 as u32, block_hash: hash_of_hex(f[1]) })
        } else {
            None
        }
    } else {
        let n = parse_uint_spec(f[1], u64::MAX as nat);
        if is_hash_text(f[0]) && n is Some {
            Some(TxConfirmation::Lightning { channel_id: hash_of_hex(f[0]), state_no: n->0 as u64 })
        } else {
            None
        }
    }
}

/// The text of a confirmation: `height:block_hash` for a block,
/// `state_no@channel_id` for a channel state.
pub open spec fn tx_confirmation_text(c: TxConfirmation) -> Seq<char> {
    match c {
        TxConfirmation::Blockchain { block_height, block_hash } => decimal(block_height as nat) + seq![':']
            + hash_hex(block_hash),
        TxConfirmation::Lightning { channel_id, state_no } => decimal(state_no as nat) + seq!['@'] + hash_hex(
            channel_id,
        ),
    }
}

impl TxConfirmation {
    /// The text of the confirmation (see `tx_confirmation_text`).
    pub fn to_string(&self) -> (r: String)
        ensures
            r@ == tx_confirmation_text(*self),
    {
        let mut out: Vec<char> = Vec::new();
        match self {
            TxConfirmation::Blockchain { block_height, block_hash } => {
                push_decimal(&mut out, *block_height as u64);
                out.push(':');
                push_hex(&mut out, block_hash.hi, 32);
                push_hex(&mut out, block_hash.lo, 32);
            },
            TxConfirmation::Lightning { channel_id, state_no } => {
                push_decimal(&mut out, *state_no);
                out.push('@');
                push_hex(&mut out, channel_id.hi, 32);
                push_hex(&mut out, channel_id.lo, 32);
            },
        }
        assert(out@ =~= tx_confirmation_text(*self));
        string_from_chars(out.as_slice())
    }

    /// Parses a confirmation (see `tx_confirmation_spec`).
    pub fn from_str(s: &str) -> (r: Result<TxConfirmation, FromStrError>)
        ensures
            match tx_confirmation_spec(s@) {
                Some(c) => r == Ok::<TxConfirmation, FromStrError>(c),
                None => r == Err::<TxConfirmation, FromStrError>(FromStrError),
            },
    {
        let v = chars_of(s);
        let seps = vec![':', '@'];
        assert(seps@ == conf_seps());
        let ends = field_ends(&v, &seps);
        let ghost f = fields_by(v@, conf_seps());
        if ends.len() != 2 {
            return Err(FromStrError);
        }
        assert(field_at(v@, ends@, f, 0));
        assert(field_at(v@, ends@, f, 1));
        if find_char(&v, ':').is_some() {
            let height = parse_uint(&v, 0, ends[0], u32::MAX as u64);
            let hash = parse_hash(&v, ends[0] + 1, ends[1]);
            match (height, hash) {
                (Some(h), Some(block_hash)) => Ok(TxConfirmation::Blockchain { block_height: h as u32, block_hash }),
                _ => Err(FromStrError),
            }
        } else {
            let channel = parse_hash(&v, 0, ends[0]);
            let state = parse_uint(&v, ends[0] + 1, ends[1], u64::MAX);
            match (channel, state) {
                (Some(channel_id), Some(n)) => Ok(TxConfirmation::Lightning { channel_id, state_no: n }),
                _ => Err(FromStrError),
            }
        }
    }
}

/// How an invoice was paid: by a transaction.
#[derive(Clone, Copy, PartialEq, Eq, Structural, Debug)]
pub enum PaymentConfirmation {
    Txid(Txid),
}

impl PaymentConfirmation {
    /// Parses a payment confirmation: the 64 hex digits of a transaction id.
    pub fn from_str(s: &str) -> (r: Result<PaymentConfirmation, FromStrError>)
        ensures
            is_hash_text(s@) ==> r == Ok::<PaymentConfirmation, FromStrError>(
                PaymentConfirmation::Txid(hash_of_hex(s@)),
            ),
            !is_hash_text(s@) ==> r == Err::<PaymentConfirmation, FromStrError>(FromStrError),
    {
        let v = chars_of(s);
        assert(v@.subrange(0, v@.len() as int) =~= v@);
        match parse_hash(&v, 0, v.len()) {
            Some(h) => Ok(PaymentConfirmation::Txid(h)),
            None => Err(FromStrError),
        }
    }
}

/// The date and time a text stands for, as seconds and nanoseconds since
/// the epoch with no time zone; none when it is not a date and time.
pub uninterp spec fn naive_datetime(text: Seq<char>) -> Option<(i64, u32)>;

/// `chrono::NaiveDateTime::from_str`, which reads `YYYY-MM-DDTHH:MM:SS`
/// with an optional fraction, so that a text without a colon never parses.
#[verifier::external_body]
fn parse_datetime(text: &str) -> (r: Option<(i64, u32)>)
    ensures
        r == naive_datetime(text@),
        !text@.contains(':') ==> r is None,
{
    match text.parse::<chrono::NaiveDateTime>() {
        Ok(t) => Some((t.and_utc().timestamp(), t.and_utc().timestamp_subsec_nanos())),
        Err(_) => None,
    }
}

/// A block together with the time it was seen.
#[derive(Clone, Copy, PartialEq, Eq, Structural, Debug)]
pub struct BlockchainTimepair {
    pub timestamp: i64,
    pub timestamp_nanos: u32,
    pub block_height: u32,
    pub block_hash: Hash32,
}

/// The time pair a text stands for: three parts split at colons and at
/// signs, a date and time, a height and a block hash.
pub open spec fn timepair_spec(s: Seq<char>) -> Option<BlockchainTimepair> {
    let f = fields_by(s, conf_seps());
    if f.len() != 3 {
        None
    } else {
        let t = naive_datetime(f[0]);
        let h = parse_uint_spec(f[1], u32::MAX as nat);
        if t is Some && h is Some && is_hash_text(f[2]) {
            Some(
                BlockchainTimepair {
                    timestamp: (t->0).0,
                    timestamp_nanos: (t->0).1,
                    block_height: h->0 as u32,
                    block_hash: hash_of_hex(f[2]),
                },
            )
        } else {
            None
        }
    }
}

/// A text without separators is a single part.
proof fn lemma_one_field(s: Seq<char>)
    requires
        !s.contains(':'),
        !s.contains('@'),
    ensures
        fields_by(s, conf_seps()) == seq![s],
    decreases s.len(),
{
    if s.len() > 0 {
        assert(s.drop_last().len() < s.len());
        assert forall|c: char| s.drop_last().contains(c) implies s.contains(c) by {
            let i = choose|i: int| 0 <= i < s.drop_last().len() && s.drop_last()[i] == c;
            assert(s[i] == c);
        }
        lemma_one_field(s.drop_last());
        assert(s[s.len() - 1] == s.last());
        assert(!conf_seps().contains(s.last())) by {
            if conf_seps().contains(s.last()) {
                let i = choose|i: int| 0 <= i < 2 && conf_seps()[i] == s.last();
                assert(conf_seps()[0] == ':' && conf_seps()[1] == '@');
            }
        }
        assert(s.drop_last().push(s.last()) =~= s);
        assert(seq![s.drop_last()].update(0, s.drop_last().push(s.last())) =~= seq![s]);
    } else {
        assert(s =~= Seq::<char>::empty());
    }
}

/// No part of a text split at colons and at signs holds either of them.
proof fn lemma_parts_free(s: Seq<char>, k: int)
    requires
        0 <= k < fields_by(s, conf_seps()).len(),
    ensures
        !fields_by(s, conf_seps())[k].contains(':'),
        !fields_by(s, conf_seps())[k].contains('@'),
    decreases s.len(),
{
    let f = fields_by(s, conf_seps());
    if s.len() > 0 {
        let g = fields_by(s.drop_last(), conf_seps());
        lemma_fields_nonempty(s.drop_last(), conf_seps());
        assert(conf_seps()[0] == ':' && conf_seps()[1] == '@');
        if conf_seps().contains(s.last()) {
            if k < g.len() {
                lemma_parts_free(s.drop_last(), k);
                assert(f[k] == g[k]);
            } else {
                assert(f[k] =~= Seq::<char>::empty());
            }
        } else {
            lemma_parts_free(s.drop_last(), k);
            assert(s.last() != ':') by {
                assert(conf_seps()[0] == ':');
            }
            assert(s.last() != '@') by {
                assert(conf_seps()[1] == '@');
            }
            if k == g.len() - 1 {
                let p = g.last();
                assert(f[k] == p.push(s.last()));
                assert forall|c: char| p.push(s.last()).contains(c) implies c != ':' && c != '@' by {
                    let i = choose|i: int| 0 <= i < p.push(s.last()).len() && p.push(s.last())[i] == c;
                    if i < p.len() {
                        assert(p[i] == c);
                    }
                }
            } else {
                assert(f[k] == g[k]);
            }
        }
    } else {
        assert(f[k] =~= Seq::<char>::empty());
    }
}

impl BlockchainTimepair {
    /// Parses a time pair (see `timepair_spec`). Its date and time holds
    /// colons, which split it apart, so no text parses.
    pub fn from_str(s: &str) -> (r: Result<BlockchainTimepair, FromStrError>)
        ensures
            match timepair_spec(s@) {
                Some(t) => r == Ok::<BlockchainTimepair, FromStrError>(t),
                None => r == Err::<BlockchainTimepair, FromStrError>(FromStrError),
            },
            r is Err,
    {
        let v = chars_of(s);
        let seps = vec![':', '@'];
        assert(seps@ == conf_seps());
        let ends = field_ends(&v, &seps);
        let ghost f = fields_by(v@, conf_seps());
        if ends.len() != 3 {
            return Err(FromStrError);
        }
        assert(field_at(v@, ends@, f, 0));
        assert(field_at(v@, ends@, f, 1));
        assert(field_at(v@, ends@, f, 2));
        let mut first: Vec<char> = Vec::new();
        push_chars(&mut first, &v, 0, ends[0]);
        let text = string_from_chars(first.as_slice());
        assert(text@ == f[0]);
        proof {
            lemma_parts_free(v@, 0);
        }
        let t = parse_datetime(text.as_str());
        let h = parse_uint(&v, ends[0] + 1, ends[1], u32::MAX as u64);
        let hash = parse_hash(&v, ends[1] + 1, ends[2]);
        match (t, h, hash) {
            (Some(t), Some(h), Some(block_hash)) => Ok(
                BlockchainTimepair { timestamp: t.0, timestamp_nanos: t.1, block_height: h as u32, block_hash },
            ),
            _ => Err(FromStrError),
        }
    }
}

/// A payment of an invoice: when it was paid and by what.
#[derive(Clone, Copy, PartialEq, Eq, Structural, Debug)]
pub struct PaymentSlip {
    pub paid: BlockchainTimepair,
    pub confirmation: PaymentConfirmation,
}

/// The slip a text stands for: two parts split at colons and at signs, a
/// time pair and a payment confirmation. The time pair is a single part
/// here, which never holds its own three parts.
pub open spec fn payment_slip_spec(s: Seq<char>) -> Option<PaymentSlip> {
    let f = fields_by(s, conf_seps());
    if f.len() != 2 {
        None
    } else {
        let paid = timepair_spec(f[0]);
        if paid is Some && is_hash_text(f[1]) {
            Some(PaymentSlip { paid: paid->0, confirmation: PaymentConfirmation::Txid(hash_of_hex(f[1])) })
        } else {
            None
        }
    }
}

impl PaymentSlip {
    /// Parses a payment slip (see `payment_slip_spec`); no text parses.
    pub fn from_str(s: &str) -> (r: Result<PaymentSlip, FromStrError>)
        ensures
            match payment_slip_spec(s@) {
                Some(p) => r == Ok::<PaymentSlip, FromStrError>(p),
                None => r == Err::<PaymentSlip, FromStrError>(FromStrError),
            },
            r is Err,
    {
        let v = chars_of(s);
        let seps = vec![':', '@'];
        assert(seps@ == conf_seps());
        let ends = field_ends(&v, &seps);
        let ghost f = fields_by(v@, conf_seps());
        if ends.len() != 2 {
            return Err(FromStrError);
        }
        assert(field_at(v@, ends@, f, 0));
        assert(field_at(v@, ends@, f, 1));
        let mut first: Vec<char> = Vec::new();
        push_chars(&mut first, &v, 0, ends[0]);
        let text = string_from_chars(first.as_slice());
        assert(text@ == f[0]);
        proof {
            lemma_parts_free(v@, 0);
            lemma_one_field(f[0]);
        }
        let paid = BlockchainTimepair::from_str(text.as_str());
        let mut second: Vec<char> = Vec::new();
        push_chars(&mut second, &v, ends[0] + 1, ends[1]);
        let text2 = string_from_chars(second.as_slice());
        assert(text2@ == f[1]);
        let confirmation = PaymentConfirmation::from_str(text2.as_str());
        match (paid, confirmation) {
            (Ok(paid), Ok(confirmation)) => Ok(PaymentSlip { paid, confirmation }),
            _ => Err(FromStrError),
        }
    }
}

} // verus!
