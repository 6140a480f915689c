use vstd::prelude::*;
use vstd::string::*;
use crate::naming::TARGET_SIZE;
use crate::picture::{decode, decoded_dims, encode_bmp, error_text, resize_exact, Picture};

verus! {

/// Why one file could not be converted.
#[derive(Debug)]
pub enum ConvertError {
    /// The source is not an image that can be decoded.
    Decode(String),
    /// The thumbnail could not be encoded as a bitmap.
    Encode(String),
}

impl ConvertError {
    /// The description of the failure.
    pub fn message(&self) -> (r: String)
        ensures
            r@ == match self {
                ConvertError::Decode(m) => m@,
                ConvertError::Encode(m) => m@,
            },
    {
        match self {
            ConvertError::Decode(m) => m.clone(),
            ConvertError::Encode(m) => m.clone(),
        }
    }
}

/// Decodes `source` and resizes it to a `TARGET_SIZE` square, ignoring its
/// aspect ratio.
pub fn thumbnail(source: &[u8]) -> (r: Result<Picture, ConvertError>)
    ensures
        r is Ok <==> decoded_dims(source@) is Some,
        r matches Ok(p) ==> p.spec_width() == TARGET_SIZE && p.spec_height() == TARGET_SIZE,
        r matches Err(e) ==> e is Decode,
{
    match decode(source) {
        Ok(p) => Ok(resize_exact(&p, TARGET_SIZE, TARGET_SIZE)),
        Err(e) => Err(ConvertError::Decode(error_text(&e))),
    }
}

/// Converts the contents of one cover file into the bytes of its bitmap
/// thumbnail: the source resized to a `TARGET_SIZE` square, encoded as BMP.
/// It fails exactly when the source does not decode.
pub fn process_cover(source: &[u8]) -> (r: Result<Vec<u8>, ConvertError>)
    ensures
        r is Ok <==> decoded_dims(source@) is Some,
        r matches Err(e) ==> e is Decode,
        r matches Ok(b) ==> decoded_dims(b@) == Some((TARGET_SIZE, TARGET_SIZE)),
{
    let p = thumbnail(source)?;
    match encode_bmp(&p) {
        Ok(bytes) => Ok(bytes),
        Err(e) => Err(ConvertError::Encode(error_text(&e))),
    }
}

/// What `process_cover` promises of its result `r` on `source`.
pub open spec fn is_conversion_of(r: Result<Vec<u8>, ConvertError>, source: Seq<u8>) -> bool {
    &&& (r is Ok <==> decoded_dims(source) is Some)
    &&& (r matches Ok(b) ==> decoded_dims(b@) == Some((TARGET_SIZE, TARGET_SIZE)))
}

/// The number of successful conversions among `results`.
pub open spec fn count_ok(results: Seq<Result<Vec<u8>, ConvertError>>) -> nat
    decreases results.len(),
{
    if results.len() == 0 {
        0
    } else {
        count_ok(results.drop_last()) + if results.last() is Ok {
            1nat
        } else {
            0nat
        }
    }
}

proof fn lemma_count_ok_all_but(results: Seq<Result<Vec<u8>, ConvertError>>, k: int)
    requires
        0 <= k,
        forall|i: int| 0 <= i < results.len() && i != k ==> #[trigger] results[i] is Ok,
    ensures
        count_ok(results) == if k < results.len() && !(results[k] is Ok) {
            (results.len() - 1) as nat
        } else {
            results.len()
        },
    decreases results.len(),
{
    if results.len() > 0 {
        let init = results.drop_last();
        assert forall|i: int| 0 <= i < init.len() && i != k implies #[trigger] init[i] is Ok by {
            assert(init[i] == results[i]);
        }
        lemma_count_ok_all_but(init, k);
        if k < init.len() {
            assert(init[k] == results[k]);
        }
    }
}

/// A failure stays with its own file: when one of `n` sources does not decode
/// and the others do, converting each of them gives that one file a failure and
/// every other file a `TARGET_SIZE` square thumbnail, `n - 1` successes in all.
pub proof fn lemma_one_undecodable(
    sources: Seq<Seq<u8>>,
    results: Seq<Result<Vec<u8>, ConvertError>>,
    k: int,
)
    requires
        results.len() == sources.len(),
        0 <= k < sources.len(),
        decoded_dims(sources[k]) is None,
        forall|i: int| 0 <= i < sources.len() && i != k ==> decoded_dims(#[trigger] sources[i]) is Some,
        forall|i: int| 0 <= i < sources.len() ==> is_conversion_of(#[trigger] results[i], sources[i]),
    ensures
        results[k] is Err,
        forall|i: int|
            0 <= i < results.len() && i != k ==> (#[trigger] results[i] matches Ok(b) && decoded_dims(b@)
                == Some((TARGET_SIZE, TARGET_SIZE))),
        count_ok(results) == results.len() - 1,
{
    assert(is_conversion_of(results[k], sources[k]));
    assert forall|i: int| 0 <= i < results.len() && i != k implies #[trigger] results[i] is Ok by {
        assert(is_conversion_of(results[i], sources[i]));
    }
    assert forall|i: int|
        0 <= i < results.len() && i != k implies (#[trigger] results[i] matches Ok(b) && decoded_dims(b@)
            == Some((TARGET_SIZE, TARGET_SIZE))) by {
        assert(is_conversion_of(results[i], sources[i]));
    }
    lemma_count_ok_all_but(results, k);
}

/// How the conversion of one file ended.
#[derive(Debug)]
pub enum Outcome {
    Converted,
    Failed(String),
}

/// The status line reported for a file.
pub open spec fn spec_status_line(path: Seq<char>, outcome: Outcome) -> Seq<char> {
    match outcome {
        Outcome::Converted => "Converted "@ + path,
        Outcome::Failed(reason) => "Error while converting "@ + path + "\n\t"@ + reason@,
    }
}

/// The status line reported for the file at `path`.
pub fn status_line(path: &str, outcome: &Outcome) -> (r: String)
    ensures
        r@ == spec_status_line(path@, *outcome),
{
    match outcome {
        Outcome::Converted => String::from_str("Converted ").concat(path),
        Outcome::Failed(reason) => String::from_str("Error while converting ").concat(path).concat(
            "\n\t",
        ).concat(reason.as_str()),
    }
}

/// The number of conversions among `outcomes` that succeeded.
pub open spec fn count_converted(outcomes: Seq<Outcome>) -> nat
    decreases outcomes.len(),
{
    if outcomes.len() == 0 {
        0
    } else {
        count_converted(outcomes.drop_last()) + if outcomes.last() is Converted {
            1nat
        } else {
            0nat
        }
    }
}

/// The numbers of successful and of failed conversions.
pub fn tally(outcomes: &Vec<Outcome>) -> (r: (usize, usize))
    ensures
        r.0 == count_converted(outcomes@),
        r.0 + r.1 == outcomes.len(),
{
    let mut converted: usize = 0;
    let mut i: usize = 0;
    while i < outcomes.len()
        invariant
            i <= outcomes.len(),
            converted == count_converted(outcomes@.subrange(0, i as int)),
            converted <= i,
        decreases outcomes.len() - i,
    {
        assert(outcomes@.subrange(0, i + 1).drop_last() =~= outcomes@.subrange(0, i as int));
        if let Outcome::Converted = &outcomes[i] {
            converted = converted + 1;
        }
        i = i + 1;
    }
    assert(outcomes@.subrange(0, i as int) =~= outcomes@);
    (converted, outcomes.len() - converted)
}

proof fn lemma_count_converted_all_but(outcomes: Seq<Outcome>, k: int)
    requires
        0 <= k,
        forall|i: int| 0 <= i < outcomes.len() && i != k ==> #[trigger] outcomes[i] is Converted,
    ensures
        count_converted(outcomes) == if k < outcomes.len() && !(outcomes[k] is Converted) {
            (outcomes.len() - 1) as nat
        } else {
            outcomes.len()
        },
    decreases outcomes.len(),
{
    if outcomes.len() > 0 {
        let init = outcomes.drop_last();
        assert forall|i: int| 0 <= i < init.len() && i != k implies #[trigger] init[i] is Converted by {
            assert(init[i] == outcomes[i]);
        }
        lemma_count_converted_all_but(init, k);
        if k < init.len() {
            assert(init[k] == outcomes[k]);
        }
    }
}

/// A failure stays with its own file: when exactly one of `n` conversions
/// fails, the tally reports `n - 1` successes and one failure.
pub proof fn lemma_one_failure(outcomes: Seq<Outcome>, k: int)
    requires
        0 <= k < outcomes.len(),
        outcomes[k] is Failed,
        forall|i: int| 0 <= i < outcomes.len() && i != k ==> #[trigger] outcomes[i] is Converted,
    ensures
        count_converted(outcomes) == outcomes.len() - 1,
        outcomes.len() - count_converted(outcomes) == 1,
{
    lemma_count_converted_all_but(outcomes, k);
}

} // verus!
