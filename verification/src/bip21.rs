//! Reading a bitcoin address, bare or as a BIP21 payment URI
//! (`bitcoin:<address>?amount=..&label=..&message=..`).

use vstd::prelude::*;

use crate::parse::{all_digits, bitcoin_address, field_at, field_start, is_digit, parse_address};
use crate::text::{chars_of, push_chars, string_from_chars};

verus! {

/// The pieces of a text split at every `sep` (an empty text is one empty
/// piece).
pub open spec fn pieces(s: Seq<char>, sep: char) -> Seq<Seq<char>>
    decreases s.len(),
{
    if s.len() == 0 {
        seq![Seq::empty()]
    } else {
        let f = pieces(s.drop_last(), sep);
        if s.last() == sep {
            f.push(Seq::empty())
        } else {
            f.update(f.len() - 1, f.last().push(s.last()))
        }
    }
}

pub(crate) proof fn lemma_pieces_nonempty(s: Seq<char>, sep: char)
    ensures
        pieces(s, sep).len() >= 1,
    decreases s.len(),
{
    if s.len() > 0 {
        lemma_pieces_nonempty(s.drop_last(), sep);
    }
}

/// Positions of the separators of a text, with the text's length last.
fn split_ends(v: &Vec<char>, sep: char) -> (r: Vec<usize>)
    ensures
        r@.len() == pieces(v@, sep).len(),
        r@.len() >= 1,
        forall|k: int| 0 <= k < r@.len() ==> #[trigger] field_at(v@, r@, pieces(v@, sep), k),
{
    let mut ends: Vec<usize> = Vec::new();
    let mut i: usize = 0;
    proof {
        assert(v@.take(0) =~= Seq::<char>::empty());
        assert(v@.subrange(0, 0) =~= Seq::<char>::empty());
    }
    while i < v.len()
        invariant
            i <= v@.len(),
            ends@.len() + 1 == pieces(v@.take(i as int), sep).len(),
            forall|k: int| 0 <= k < ends@.len() ==> #[trigger] field_at(v@, ends@, pieces(v@.take(i as int), sep), k),
            forall|k: int| 0 <= k < ends@.len() ==> ends@[k] < i,
            field_start(ends@, ends@.len() as int) <= i,
            v@.subrange(field_start(ends@, ends@.len() as int), i as int) == pieces(v@.take(i as int), sep).last(),
        decreases v@.len() - i,
    {
        let c = v[i];
        let ghost f = pieces(v@.take(i as int), sep);
        proof {
            assert(v@.take(i + 1).drop_last() =~= v@.take(i as int));
            assert(v@.take(i + 1).last() == c);
            lemma_pieces_nonempty(v@.take(i as int), sep);
        }
        let ghost start = field_start(ends@, ends@.len() as int);
        let ghost old_ends = ends@;
        if c == sep {
            ends.push(i);
            proof {
                let g = pieces(v@.take(i + 1), sep);
                assert(g == f.push(Seq::empty()));
                assert(v@.subrange(i + 1, i + 1) =~= Seq::<char>::empty());
                assert(field_start(ends@, ends@.len() as int) == i + 1);
                assert forall|k: int| 0 <= k < ends@.len() implies #[trigger] field_at(v@, ends@, g, k) by {
                    if k < old_ends.len() {
                        assert(field_at(v@, old_ends, f, k));
                        assert(field_start(ends@, k) == field_start(old_ends, k));
                        assert(g[k] == f[k]);
                    } else {
                        assert(field_start(ends@, k) == start);
                        assert(g[k] == f.last());
                    }
                }
            }
        } else {
            proof {
                let g = pieces(v@.take(i + 1), sep);
                assert(g == f.update(f.len() - 1, f.last().push(c)));
                assert(v@.subrange(start, i + 1) =~= v@.subrange(start, i as int).push(c));
                assert forall|k: int| 0 <= k < ends@.len() implies #[trigger] field_at(v@, ends@, g, k) by {
                    assert(field_at(v@, old_ends, f, k));
                    assert(g[k] == f[k]);
                }
            }
        }
        i = i + 1;
    }
    assert(v@.take(i as int) =~= v@);
    proof {
        lemma_pieces_nonempty(v@, sep);
    }
    let ghost old_ends = ends@;
    let n = v.len();
    ends.push(n);
    proof {
        assert forall|k: int| 0 <= k < ends@.len() implies #[trigger] field_at(v@, ends@, pieces(v@, sep), k) by {
            if k < old_ends.len() {
                assert(field_at(v@, old_ends, pieces(v@, sep), k));
                assert(field_start(ends@, k) == field_start(old_ends, k));
            } else {
                assert(field_start(ends@, k) == field_start(old_ends, old_ends.len() as int));
            }
        }
    }
    ends
}

/// The `k`-th piece of `v` split at `sep`, copied out.
fn piece(v: &Vec<char>, ends: &Vec<usize>, k: usize, sep: char) -> (r: Vec<char>)
    requires
        ends@.len() == pieces(v@, sep).len(),
        forall|j: int| 0 <= j < ends@.len() ==> #[trigger] field_at(v@, ends@, pieces(v@, sep), j),
        k < ends@.len(),
    ensures
        r@ == pieces(v@, sep)[k as int],
{
    assert(field_at(v@, ends@, pieces(v@, sep), k as int));
    let start = if k == 0 { 0 } else { ends[k - 1] + 1 };
    let mut r: Vec<char> = Vec::new();
    push_chars(&mut r, v, start, ends[k]);
    assert(r@ =~= v@.subrange(start as int, ends@[k as int] as int));
    r
}

/// A text made of the characters of `v`.
fn text_of(v: &Vec<char>) -> (r: String)
    ensures
        r@ == v@,
{
    string_from_chars(v.as_slice())
}

/// Whether a text is a decimal number without exponent: digits with at most
/// one point, and at least one digit.
pub open spec fn is_decimal_text(s: Seq<char>) -> bool {
    &&& forall|i: int| 0 <= i < s.len() ==> is_digit(#[trigger] s[i]) || s[i] == '.'
    &&& forall|i: int, j: int| 0 <= i < j < s.len() && #[trigger] s[i] == '.' ==> #[trigger] s[j] != '.'
    &&& exists|i: int| 0 <= i < s.len() && is_digit(#[trigger] s[i])
}

/// Checks that a text is a decimal number without exponent.
fn decimal_ok(v: &Vec<char>) -> (r: bool)
    ensures
        r == is_decimal_text(v@),
{
    let mut point: Option<usize> = None;
    let mut digit: Option<usize> = None;
    let mut i: usize = 0;
    while i < v.len()
        invariant
            i <= v@.len(),
            forall|k: int| 0 <= k < i ==> is_digit(#[trigger] v@[k]) || v@[k] == '.',
            match point {
                Some(p) => p < i && v@[p as int] == '.' && forall|k: int| 0 <= k < i && k != p ==> #[trigger] v@[k] != '.',
                None => forall|k: int| 0 <= k < i ==> #[trigger] v@[k] != '.',
            },
            match digit {
                Some(d) => d < i && is_digit(v@[d as int]),
                None => forall|k: int| 0 <= k < i ==> !is_digit(#[trigger] v@[k]),
            },
        decreases v@.len() - i,
    {
        let c = v[i];
        if c >= '0' && c <= '9' {
            digit = Some(i);
        } else if c == '.' {
            if point.is_some() {
                proof {
                    let p = point->0;
                    assert(v@[p as int] == '.' && v@[i as int] == '.');
                }
                return false;
            }
            point = Some(i);
        } else {
            assert(!(is_digit(v@[i as int]) || v@[i as int] == '.'));
            return false;
        }
        i = i + 1;
    }
    match digit {
        Some(d) => {
            assert(is_digit(v@[d as int]));
            true
        },
        None => false,
    }
}


pub open spec fn is_sign(c: char) -> bool {
    c == '+' || c == '-'
}

pub open spec fn is_exp_mark(c: char) -> bool {
    c == 'e' || c == 'E'
}

/// The text after an optional leading sign.
pub open spec fn unsigned_part(s: Seq<char>) -> Seq<char> {
    if s.len() > 0 && is_sign(s[0]) {
        s.drop_first()
    } else {
        s
    }
}

/// Whether `s` spells a word given in lowercase `lo` and uppercase `up`,
/// each letter in either case.
pub open spec fn is_word(s: Seq<char>, lo: Seq<char>, up: Seq<char>) -> bool {
    &&& s.len() == lo.len()
    &&& forall|i: int| 0 <= i < s.len() ==> #[trigger] s[i] == lo[i] || s[i] == up[i]
}

/// An exponent's digits: an optional sign, then at least one digit.
pub open spec fn is_exponent(s: Seq<char>) -> bool {
    unsigned_part(s).len() > 0 && all_digits(unsigned_part(s))
}

/// A decimal number, optionally followed by `e` or `E` and an exponent.
pub open spec fn is_number(s: Seq<char>) -> bool {
    ||| is_decimal_text(s)
    ||| exists|k: int|
        0 <= k < s.len() && is_exp_mark(#[trigger] s[k]) && is_decimal_text(s.subrange(0, k)) && is_exponent(
            s.subrange(k + 1, s.len() as int),
        )
}

/// Whether a text is an amount in the grammar of floating-point numbers:
/// an optional sign, then `inf`, `infinity` or `nan` in any case, or a
/// number.
pub open spec fn is_amount_text(s: Seq<char>) -> bool {
    let b = unsigned_part(s);
    ||| is_word(b, seq!['i', 'n', 'f'], seq!['I', 'N', 'F'])
    ||| is_word(b, seq!['i', 'n', 'f', 'i', 'n', 'i', 't', 'y'], seq!['I', 'N', 'F', 'I', 'N', 'I', 'T', 'Y'])
    ||| is_word(b, seq!['n', 'a', 'n'], seq!['N', 'A', 'N'])
    ||| is_number(b)
}

/// The characters of `v` from `from` on.
fn tail_chars(v: &Vec<char>, from: usize) -> (r: Vec<char>)
    requires
        from <= v@.len(),
    ensures
        r@ == v@.subrange(from as int, v@.len() as int),
{
    let mut r: Vec<char> = Vec::new();
    push_chars(&mut r, v, from, v.len());
    assert(r@ =~= v@.subrange(from as int, v@.len() as int));
    r
}

/// The characters of `v` after an optional leading sign.
fn unsigned_chars(v: &Vec<char>) -> (r: Vec<char>)
    ensures
        r@ == unsigned_part(v@),
{
    let start: usize = if v.len() > 0 && (v[0] == '+' || v[0] == '-') {
        1
    } else {
        0
    };
    let r = tail_chars(v, start);
    assert(r@ =~= unsigned_part(v@));
    r
}

/// Checks that `s` spells the word given by `lo` and `up` (see `is_word`).
fn word_ok(s: &Vec<char>, lo: &Vec<char>, up: &Vec<char>) -> (r: bool)
    requires
        lo@.len() == up@.len(),
    ensures
        r == is_word(s@, lo@, up@),
{
    if s.len() != lo.len() {
        return false;
    }
    let mut i: usize = 0;
    while i < s.len()
        invariant
            s@.len() == lo@.len(),
            lo@.len() == up@.len(),
            i <= s@.len(),
            forall|k: int| 0 <= k < i ==> #[trigger] s@[k] == lo@[k] || s@[k] == up@[k],
        decreases s@.len() - i,
    {
        if !(s[i] == lo[i] || s[i] == up[i]) {
            return false;
        }
        i = i + 1;
    }
    true
}

/// Checks that every character of `v` is a decimal digit.
fn digits_ok(v: &Vec<char>) -> (r: bool)
    ensures
        r == all_digits(v@),
{
    let mut i: usize = 0;
    while i < v.len()
        invariant
            i <= v@.len(),
            forall|k: int| 0 <= k < i ==> is_digit(#[trigger] v@[k]),
        decreases v@.len() - i,
    {
        if !(v[i] >= '0' && v[i] <= '9') {
            assert(!is_digit(v@[i as int]));
            return false;
        }
        i = i + 1;
    }
    true
}

/// Checks the grammar of an exponent.
fn exponent_ok(v: &Vec<char>) -> (r: bool)
    ensures
        r == is_exponent(v@),
{
    let d = unsigned_chars(v);
    d.len() > 0 && digits_ok(&d)
}

/// Checks the grammar of a number with an optional exponent.
fn number_ok(v: &Vec<char>) -> (r: bool)
    ensures
        r == is_number(v@),
{
    let mut k: usize = 0;
    while k < v.len() && !(v[k] == 'e' || v[k] == 'E')
        invariant
            k <= v@.len(),
            forall|j: int| 0 <= j < k ==> !is_exp_mark(#[trigger] v@[j]),
        decreases v@.len() - k,
    {
        k = k + 1;
    }
    if k == v.len() {
        return decimal_ok(v);
    }
    assert(is_exp_mark(v@[k as int]));
    assert(!is_decimal_text(v@)) by {
        assert(!(is_digit(v@[k as int]) || v@[k as int] == '.'));
    }
    let mut m: Vec<char> = Vec::new();
    push_chars(&mut m, v, 0, k);
    assert(m@ =~= v@.subrange(0, k as int));
    let x = tail_chars(v, k + 1);
    let r = decimal_ok(&m) && exponent_ok(&x);
    proof {
        if exists|j: int|
            0 <= j < v@.len() && is_exp_mark(#[trigger] v@[j]) && is_decimal_text(v@.subrange(0, j))
                && is_exponent(v@.subrange(j + 1, v@.len() as int)) {
            let j = choose|j: int|
                0 <= j < v@.len() && is_exp_mark(#[trigger] v@[j]) && is_decimal_text(v@.subrange(0, j))
                    && is_exponent(v@.subrange(j + 1, v@.len() as int));
            if j > k {
                assert(v@.subrange(0, j)[k as int] == v@[k as int]);
            }
            assert(j == k);
        }
    }
    r
}

/// Checks that a text is an amount (see `is_amount_text`).
fn amount_text_ok(v: &Vec<char>) -> (r: bool)
    ensures
        r == is_amount_text(v@),
{
    let b = unsigned_chars(v);
    let inf = vec!['i', 'n', 'f'];
    let inf_up = vec!['I', 'N', 'F'];
    let infinity = vec!['i', 'n', 'f', 'i', 'n', 'i', 't', 'y'];
    let infinity_up = vec!['I', 'N', 'F', 'I', 'N', 'I', 'T', 'Y'];
    let nan = vec!['n', 'a', 'n'];
    let nan_up = vec!['N', 'A', 'N'];
    assert(inf@ =~= seq!['i', 'n', 'f'] && inf_up@ =~= seq!['I', 'N', 'F']);
    assert(infinity@ =~= seq!['i', 'n', 'f', 'i', 'n', 'i', 't', 'y']);
    assert(infinity_up@ =~= seq!['I', 'N', 'F', 'I', 'N', 'I', 'T', 'Y']);
    assert(nan@ =~= seq!['n', 'a', 'n'] && nan_up@ =~= seq!['N', 'A', 'N']);
    word_ok(&b, &inf, &inf_up) || word_ok(&b, &infinity, &infinity_up) || word_ok(&b, &nan, &nan_up) || number_ok(&b)
}

/// The recognised parameters of a payment URI so far: the amounts given (in
/// order), the label and message (the last ones given), and whether a
/// recognised parameter was malformed (an amount must be a number,
/// see `is_amount_text`).
pub open spec fn params_spec(args: Seq<Seq<char>>) -> (Seq<Seq<char>>, Option<Seq<char>>, Option<Seq<char>>, bool)
    decreases args.len(),
{
    if args.len() == 0 {
        (Seq::empty(), None, None, false)
    } else {
        let (amounts, label, message, bad) = params_spec(args.drop_last());
        let kv = pieces(args.last(), '=');
        let known = kv[0] == "amount"@ || kv[0] == "label"@ || kv[0] == "message"@;
        if bad {
            (amounts, label, message, bad)
        } else if kv.len() == 2 {
            if kv[0] == "amount"@ {
                if is_amount_text(kv[1]) {
                    (amounts.push(kv[1]), label, message, false)
                } else {
                    (amounts, label, message, true)
                }
            } else if kv[0] == "label"@ {
                (amounts, Some(kv[1]), message, false)
            } else if kv[0] == "message"@ {
                (amounts, label, Some(kv[1]), false)
            } else {
                (amounts, label, message, false)
            }
        } else {
            (amounts, label, message, known)
        }
    }
}

proof fn lemma_bad_absorbs(args: Seq<Seq<char>>, j: int)
    requires
        0 <= j <= args.len(),
        params_spec(args.take(j)).3,
    ensures
        params_spec(args).3,
    decreases args.len() - j,
{
    if j < args.len() {
        assert(args.take(j + 1).drop_last() =~= args.take(j));
        lemma_bad_absorbs(args, j + 1);
    } else {
        assert(args.take(j) =~= args);
    }
}

/// The ASCII lower-case form of a character.
pub open spec fn ascii_lower(c: char) -> char {
    if 'A' <= c && c <= 'Z' {
        ((c as u32 + 32) as u8) as char
    } else {
        c
    }
}

/// The text starts with `bitcoin:`, in any case.
pub open spec fn has_uri_scheme(s: Seq<char>) -> bool {
    &&& s.len() >= 8
    &&& forall|i: int| 0 <= i < 8 ==> ascii_lower(#[trigger] s[i]) == "bitcoin:"@[i]
}

/// What reading an address or payment URI gives: the address text, whether
/// it was a URI with parameters, the amounts, label and message; none when
/// the text is neither.
pub open spec fn address_info_spec(s: Seq<char>) -> Option<(Seq<char>, bool, Seq<Seq<char>>, Option<Seq<char>>, Option<Seq<char>>)> {
    if bitcoin_address(s) is Some {
        Some((bitcoin_address(s)->0, false, Seq::empty(), None, None))
    } else if !has_uri_scheme(s) {
        None
    } else {
        let parts = pieces(s.skip(8), '?');
        if bitcoin_address(parts[0]) is None {
            None
        } else if parts.len() == 1 {
            Some((bitcoin_address(parts[0])->0, false, Seq::empty(), None, None))
        } else {
            let (amounts, label, message, bad) = params_spec(pieces(parts[1], '&'));
            if bad {
                None
            } else {
                Some((bitcoin_address(parts[0])->0, true, amounts, label, message))
            }
        }
    }
}

/// An address read from a text: bare, or from a payment URI with its
/// parameters. The amounts are kept as text, in order; the last one is the
/// payment's.
pub struct AddressInfo {
    pub address: String,
    pub is_bip21: bool,
    pub amounts: Vec<String>,
    pub label: Option<String>,
    pub message: Option<String>,
    /// The version of the address's witness program, for a segwit address.
    pub witness_ver: Option<u8>,
}

/// The witness version of the address a text stands for: none for an
/// address without a witness program, or for a text that is no address.
pub uninterp spec fn bitcoin_witness_version(text: Seq<char>) -> Option<u8>;

/// `bitcoin::Address::from_str`, then the version of the address's witness
/// program (`Payload::WitnessProgram`), by name (`bitcoin_witness_version`):
/// none for another payload or a text that is not an address.
#[verifier::external_body]
fn address_witness_version(text: &str) -> (r: Option<u8>)
    ensures
        r == bitcoin_witness_version(text@),
{
    match text.parse::<bitcoin::Address>() {
        Ok(a) => match a.payload {
            bitcoin::util::address::Payload::WitnessProgram { version, .. } => Some(version.to_u8()),
            _ => None,
        },
        Err(_) => None,
    }
}

/// The witness version an address text or payment URI reports: that of the
/// bare address, or of the URI's address.
pub open spec fn witness_of(s: Seq<char>) -> Option<u8> {
    if bitcoin_address(s) is Some {
        bitcoin_witness_version(s)
    } else {
        bitcoin_witness_version(pieces(s.skip(8), '?')[0])
    }
}

impl AddressInfo {
    /// The fields read from the text itself: address, URI flag, amounts,
    /// label and message. The witness version, which the address decides,
    /// is stated apart (see `from_str`).
    pub open spec fn view_tuple(&self) -> (Seq<char>, bool, Seq<Seq<char>>, Option<Seq<char>>, Option<Seq<char>>) {
        (
            self.address@,
            self.is_bip21,
            self.amounts@.map_values(|a: String| a@),
            match self.label {
                Some(l) => Some(l@),
                None => None,
            },
            match self.message {
                Some(m) => Some(m@),
                None => None,
            },
        )
    }

    /// Reads an address or a payment URI (see `address_info_spec`).
    pub fn from_str(s: &str) -> (r: Result<AddressInfo, ()>)
        ensures
            match address_info_spec(s@) {
                Some(t) => r matches Ok(info) && info.view_tuple() == t,
                None => r is Err,
            },
            r matches Ok(info) ==> info.witness_ver == witness_of(s@),
    {
        if let Some(a) = parse_address(s) {
            let witness_ver = address_witness_version(s);
            let info = AddressInfo { address: a, is_bip21: false, amounts: Vec::new(), label: None, message: None, witness_ver };
            assert(info.amounts@.map_values(|a: String| a@) =~= Seq::<Seq<char>>::empty());
            return Ok(info);
        }
        let v = chars_of(s);
        if v.len() < 8 {
            return Err(());
        }
        let scheme = ['b', 'i', 't', 'c', 'o', 'i', 'n', ':'];
        proof {
            reveal_strlit("bitcoin:");
            assert(scheme@ =~= "bitcoin:"@);
        }
        let mut i: usize = 0;
        while i < 8
            invariant
                i <= 8,
                v@ == s@,
                v@.len() >= 8,
                scheme@ == "bitcoin:"@,
                bitcoin_address(s@) is None,
                forall|j: int| 0 <= j < i ==> ascii_lower(#[trigger] v@[j]) == "bitcoin:"@[j],
            decreases 8 - i,
        {
            let c = v[i];
            let lower = if c >= 'A' && c <= 'Z' {
                ((c as u32 + 32) as u8) as char
            } else {
                c
            };
            if lower != scheme[i] {
                assert(ascii_lower(v@[i as int]) != "bitcoin:"@[i as int]);
                return Err(());
            }
            i = i + 1;
        }
        let mut rest: Vec<char> = Vec::new();
        push_chars(&mut rest, &v, 8, v.len());
        assert(rest@ =~= s@.skip(8));
        let ends = split_ends(&rest, '?');
        let first = piece(&rest, &ends, 0, '?');
        let first_text = text_of(&first);
        let address = match parse_address(first_text.as_str()) {
            Some(a) => a,
            None => return Err(()),
        };
        let witness_ver = address_witness_version(first_text.as_str());
        if ends.len() == 1 {
            let info = AddressInfo { address, is_bip21: false, amounts: Vec::new(), label: None, message: None, witness_ver };
            assert(info.amounts@.map_values(|a: String| a@) =~= Seq::<Seq<char>>::empty());
            return Ok(info);
        }
        let params = piece(&rest, &ends, 1, '?');
        let ghost parts = pieces(s@.skip(8), '?');
        assert(has_uri_scheme(s@));
        let args_ends = split_ends(&params, '&');
        let ghost args = pieces(params@, '&');
        let mut amounts: Vec<String> = Vec::new();
        let mut label: Option<String> = None;
        let mut message: Option<String> = None;
        let mut k: usize = 0;
        proof {
            reveal_strlit("amount");
            reveal_strlit("label");
            reveal_strlit("message");
        }
        while k < args_ends.len()
            invariant
                k <= args_ends@.len(),
                bitcoin_address(s@) is None,
                has_uri_scheme(s@),
                parts == pieces(s@.skip(8), '?'),
                parts.len() > 1,
                bitcoin_address(parts[0]) is Some,
                params@ == parts[1],
                address@ == bitcoin_address(parts[0])->0,
                args_ends@.len() == args.len(),
                args == pieces(params@, '&'),
                forall|j: int| 0 <= j < args_ends@.len() ==> #[trigger] field_at(params@, args_ends@, args, j),
                params_spec(args.take(k as int)) == (amounts@.map_values(|a: String| a@), opt_view_spec(label), opt_view_spec(message), false),
            decreases args_ends@.len() - k,
        {
            let arg = piece(&params, &args_ends, k, '&');
            let kv_ends = split_ends(&arg, '=');
            let key = piece(&arg, &kv_ends, 0, '=');
            let ghost kv = pieces(arg@, '=');
            let is_amount = key_is(&key, "amount");
            let is_label = key_is(&key, "label");
            let is_message = key_is(&key, "message");
            proof {
                assert(args.take(k + 1).drop_last() =~= args.take(k as int));
                assert(args.take(k + 1).last() == arg@);
            }
            if kv_ends.len() == 2 {
                let value = piece(&arg, &kv_ends, 1, '=');
                if is_amount {
                    if !amount_text_ok(&value) {
                        proof {
                            lemma_bad_absorbs(args, k + 1);
                        }
                        return Err(());
                    }
                    let ghost before = amounts@.map_values(|a: String| a@);
                    amounts.push(text_of(&value));
                    assert(amounts@.map_values(|a: String| a@) =~= before.push(value@));
                } else if is_label {
                    label = Some(text_of(&value));
                } else if is_message {
                    message = Some(text_of(&value));
                }
            } else if is_amount || is_label || is_message {
                proof {
                    lemma_bad_absorbs(args, k + 1);
                }
                return Err(());
            }
            k = k + 1;
        }
        assert(args.take(k as int) =~= args);
        Ok(AddressInfo { address, is_bip21: true, amounts, label, message, witness_ver })
    }
}

pub open spec fn opt_view_spec(o: Option<String>) -> Option<Seq<char>> {
    match o {
        Some(s) => Some(s@),
        None => None,
    }
}

/// Whether the characters of `v` are those of `key`.
fn key_is(v: &Vec<char>, key: &str) -> (r: bool)
    ensures
        r == (v@ == key@),
{
    let k = chars_of(key);
    crate::cli::chars_equal(v, &k)
}

} // verus!
