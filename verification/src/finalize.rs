//! Finalizing signed PSBTs into transactions.

use vstd::prelude::*;

verus! {

/// What `miniscript::psbt::finalize` makes of the PSBT that some bytes
/// decode to, serialized again: the finalized PSBT, or the message of the
/// error (of decoding, or of finalizing).
pub uninterp spec fn finalized_psbt(data: Seq<u8>) -> Result<Seq<u8>, Seq<char>>;

/// What `miniscript::psbt::extract` gives for the PSBT that some bytes
/// decode to: the serialized signed transaction, or the message of the
/// error (of decoding, or of extracting).
pub uninterp spec fn extracted_tx(data: Seq<u8>) -> Result<Seq<u8>, Seq<char>>;

/// The shape of the PSBT that some bytes decode to (with
/// `bitcoin::consensus::deserialize`), as far as finalizing reads it
/// unchecked: the number of inputs of its unsigned transaction, the number
/// of its input maps, and, pairing the two in order, each transaction
/// input's previous output index with the output count of the previous
/// transaction its map carries when it carries no witness output; and,
/// over all input maps in order, whether each key of a partial signature is
/// compressed. None when the bytes do not decode to a PSBT.
pub uninterp spec fn psbt_input_shape(data: Seq<u8>) -> Option<(u64, u64, Seq<(u32, Option<u64>)>, Seq<bool>)>;

/// Whether finalizing a PSBT of this shape stays clear of what it takes
/// for granted: either its input counts differ (which finalizing refuses
/// first), or every previous output index it looks up in a carried
/// transaction is one of that transaction's outputs and every key of a
/// partial signature is compressed (finalizing a witness input makes a
/// witness address of each key it tries).
pub open spec fn shape_safe(shape: Option<(u64, u64, Seq<(u32, Option<u64>)>, Seq<bool>)>) -> bool {
    match shape {
        None => true,
        Some((txins, maps, pairs, compressed)) => txins != maps || {
            &&& forall|i: int| 0 <= i < pairs.len() ==> pair_safe(#[trigger] pairs[i])
            &&& forall|i: int| 0 <= i < compressed.len() ==> #[trigger] compressed[i]
        },
    }
}

/// Whether an input's previous output index lies within the outputs of the
/// previous transaction its map carries, if it carries one.
pub open spec fn pair_safe(pair: (u32, Option<u64>)) -> bool {
    match pair {
        (vout, Some(n)) => vout < n,
        (_, None) => true,
    }
}

/// `bitcoin::consensus::deserialize` of a PSBT, read as its shape (see
/// `psbt_input_shape`), by name.
#[verifier::external_body]
fn psbt_shape(data: &Vec<u8>) -> (r: Option<(u64, u64, Vec<(u32, Option<u64>)>, Vec<bool>)>)
    ensures
        match r {
            Some((a, b, v, k)) => psbt_input_shape(data@) == Some((a, b, v@, k@)),
            None => psbt_input_shape(data@) is None,
        },
{
    let psbt: bitcoin::util::psbt::PartiallySignedTransaction = bitcoin::consensus::deserialize(data).ok()?;
    let tx = &psbt.global.unsigned_tx;
    let pairs = tx.input.iter().zip(psbt.inputs.iter()).map(|(i, m)| match (&m.witness_utxo, &m.non_witness_utxo) {
        (None, Some(t)) => (i.previous_output.vout, Some(t.output.len() as u64)),
        _ => (i.previous_output.vout, None),
    });
    let keys = psbt.inputs.iter().flat_map(|m| m.partial_sigs.keys().map(|k| k.compressed));
    Some((tx.input.len() as u64, psbt.inputs.len() as u64, pairs.collect(), keys.collect()))
}

/// `miniscript::psbt::finalize` on the PSBT that `data` decodes to (with
/// `bitcoin::consensus::deserialize`), the result serialized again; errors
/// are given by their message. The outcome is named (`finalized_psbt`).
/// Finalizing looks up previous outputs in the carried previous
/// transactions by index, unchecked, so only PSBTs of a safe shape are
/// admitted (see `shape_safe`).
#[verifier::external_body]
pub(crate) fn psbt_finalize(data: &Vec<u8>) -> (r: Result<Vec<u8>, String>)
    requires
        shape_safe(psbt_input_shape(data@)),
    ensures
        match r {
            Ok(v) => finalized_psbt(data@) == Ok::<Seq<u8>, Seq<char>>(v@),
            Err(m) => finalized_psbt(data@) == Err::<Seq<u8>, Seq<char>>(m@),
        },
{
    let mut psbt: bitcoin::util::psbt::PartiallySignedTransaction =
        bitcoin::consensus::deserialize(data).map_err(|e| e.to_string())?;
    let secp = bitcoin::secp256k1::Secp256k1::verification_only();
    miniscript::psbt::finalize(&mut psbt, &secp).map_err(|e| e.to_string())?;
    Ok(bitcoin::consensus::serialize(&psbt))
}

/// `miniscript::psbt::extract` on the PSBT that `data` decodes to, the
/// transaction serialized with `bitcoin::consensus::serialize`; errors are
/// given by their message. The outcome is named (`extracted_tx`). Like
/// finalizing, extracting indexes carried previous transactions unchecked,
/// so only PSBTs of a safe shape are admitted.
#[verifier::external_body]
pub(crate) fn psbt_extract(data: &Vec<u8>) -> (r: Result<Vec<u8>, String>)
    requires
        shape_safe(psbt_input_shape(data@)),
    ensures
        match r {
            Ok(v) => extracted_tx(data@) == Ok::<Seq<u8>, Seq<char>>(v@),
            Err(m) => extracted_tx(data@) == Err::<Seq<u8>, Seq<char>>(m@),
        },
{
    let psbt: bitcoin::util::psbt::PartiallySignedTransaction =
        bitcoin::consensus::deserialize(data).map_err(|e| e.to_string())?;
    let secp = bitcoin::secp256k1::Secp256k1::verification_only();
    let tx = miniscript::psbt::extract(&psbt, &secp).map_err(|e| e.to_string())?;
    Ok(bitcoin::consensus::serialize(&tx))
}

/// What finalizing a PSBT comes to: the signed transaction extracted from
/// the finalized PSBT, or the message of the first error; none for a PSBT
/// (before or after finalizing) whose shape is not safe to finalize (see
/// `shape_safe`).
pub open spec fn finalize_result(psbt: Seq<u8>) -> Option<Result<Seq<u8>, Seq<char>>> {
    if !shape_safe(psbt_input_shape(psbt)) {
        None
    } else {
        match finalized_psbt(psbt) {
            Err(m) => Some(Err(m)),
            Ok(f) => if shape_safe(psbt_input_shape(f)) {
                Some(extracted_tx(f))
            } else {
                None
            },
        }
    }
}

/// Whether a PSBT's shape is safe to finalize (see `shape_safe`).
fn shape_ok(data: &Vec<u8>) -> (r: bool)
    ensures
        r == shape_safe(psbt_input_shape(data@)),
{
    match psbt_shape(data) {
        None => true,
        Some((txins, maps, pairs, compressed)) => {
            let ghost shape = psbt_input_shape(data@);
            assert(shape == Some((txins, maps, pairs@, compressed@)));
            if txins != maps {
                return true;
            }
            let mut i: usize = 0;
            while i < pairs.len()
                invariant
                    i <= pairs@.len(),
                    shape == psbt_input_shape(data@),
                    shape == Some((txins, maps, pairs@, compressed@)),
                    txins == maps,
                    forall|k: int| 0 <= k < i ==> pair_safe(#[trigger] pairs@[k]),
                decreases pairs@.len() - i,
            {
                let (vout, count) = pairs[i];
                if let Some(n) = count {
                    if !((vout as u64) < n) {
                        assert(!pair_safe(pairs@[i as int]));
                        assert(!shape_safe(shape)) by {
                            let (a, b, ps, cs) = shape->0;
                            assert(ps == pairs@);
                            assert(!pair_safe(ps[i as int]));
                        }
                        return false;
                    }
                }
                i = i + 1;
            }
            let mut j: usize = 0;
            while j < compressed.len()
                invariant
                    j <= compressed@.len(),
                    shape == psbt_input_shape(data@),
                    shape == Some((txins, maps, pairs@, compressed@)),
                    txins == maps,
                    forall|k: int| 0 <= k < pairs@.len() ==> pair_safe(#[trigger] pairs@[k]),
                    forall|k: int| 0 <= k < j ==> #[trigger] compressed@[k],
                decreases compressed@.len() - j,
            {
                if !compressed[j] {
                    assert(!shape_safe(shape)) by {
                        let (a, b, ps, cs) = shape->0;
                        assert(cs == compressed@);
                        assert(!cs[j as int]);
                    }
                    return false;
                }
                j = j + 1;
            }
            true
        },
    }
}

/// Finalizes a signed PSBT and extracts its transaction (see
/// `finalize_result`); none when the PSBT is not safe to finalize.
pub fn finalize_psbt(psbt: &Vec<u8>) -> (r: Option<Result<Vec<u8>, String>>)
    ensures
        match r {
            None => finalize_result(psbt@) is None,
            Some(Ok(v)) => finalize_result(psbt@) == Some(Ok::<Seq<u8>, Seq<char>>(v@)),
            Some(Err(m)) => finalize_result(psbt@) == Some(Err::<Seq<u8>, Seq<char>>(m@)),
        },
{
    if !shape_ok(psbt) {
        return None;
    }
    match psbt_finalize(psbt) {
        Err(m) => Some(Err(m)),
        Ok(f) => if shape_ok(&f) {
            Some(psbt_extract(&f))
        } else {
            None
        },
    }
}

} // verus!
