//! Values of the standard library in terms of sequences.

use crate::error::Error;
use vstd::prelude::*;

verus! {

/// A result with texts, in terms of sequences.
pub open spec fn text_result(result: Result<String, String>) -> Result<Seq<char>, Seq<char>> {
    match result {
        Ok(text) => Ok(text@),
        Err(cause) => Err(cause@),
    }
}

/// A result with a cause, in terms of sequences.
pub open spec fn plain_result<T>(result: Result<T, String>) -> Result<T, Seq<char>> {
    match result {
        Ok(value) => Ok(value),
        Err(cause) => Err(cause@),
    }
}

/// A result with bytes, in terms of sequences.
pub open spec fn bytes_result(result: Result<Vec<u8>, String>) -> Result<Seq<u8>, Seq<char>> {
    match result {
        Ok(bytes) => Ok(bytes@),
        Err(cause) => Err(cause@),
    }
}

/// Bytes, or the message of the error, in terms of sequences.
pub open spec fn data_result(result: Result<Vec<u8>, Error>) -> Result<Seq<u8>, Seq<char>> {
    match result {
        Ok(data) => Ok(data@),
        Err(error) => Err(error@),
    }
}

/// A text, or the message of the error, in terms of sequences.
pub open spec fn message_result(result: Result<String, Error>) -> Result<Seq<char>, Seq<char>> {
    match result {
        Ok(text) => Ok(text@),
        Err(error) => Err(error@),
    }
}

/// Optional bytes, or the message of the error, in terms of sequences.
pub open spec fn optional_data_result(result: Result<Option<Vec<u8>>, Error>) -> Result<
    Option<Seq<u8>>,
    Seq<char>,
> {
    match result {
        Ok(Some(data)) => Ok(Some(data@)),
        Ok(None) => Ok(None),
        Err(error) => Err(error@),
    }
}

/// An optional text, by its characters.
pub open spec fn optional_text(text: Option<&str>) -> Option<Seq<char>> {
    match text {
        Some(text) => Some(text@),
        None => None,
    }
}

/// A text that may be missing, by its characters.
pub open spec fn optional_string(text: Option<String>) -> Option<Seq<char>> {
    match text {
        Some(text) => Some(text@),
        None => None,
    }
}

/// Data that may be missing, by its bytes.
pub open spec fn optional_bytes(data: Option<Vec<u8>>) -> Option<Seq<u8>> {
    match data {
        Some(data) => Some(data@),
        None => None,
    }
}

/// Texts by their characters.
pub open spec fn strings(texts: Seq<String>) -> Seq<Seq<char>> {
    texts.map_values(|text: String| text@)
}

/// Whether a list that is worked through in order stays failed once its start has failed.
pub open spec fn stays_failed<A, B>(outcome: spec_fn(Seq<A>) -> Result<B, Seq<char>>) -> bool {
    forall|list: Seq<A>|
        list.len() > 0 && outcome(list.drop_last()) is Err ==> #[trigger] outcome(list) == outcome(
            list.drop_last(),
        )
}

/// Once the start of a list has failed, the list fails in the same way however far it goes.
pub proof fn lemma_failure_stays<A, B>(
    outcome: spec_fn(Seq<A>) -> Result<B, Seq<char>>,
    list: Seq<A>,
    count: int,
)
    requires
        stays_failed(outcome),
        0 <= count <= list.len(),
        outcome(list.take(count)) is Err,
    ensures
        outcome(list) == outcome(list.take(count)),
    decreases list.len(),
{
    if count < list.len() {
        assert(list.drop_last().take(count) =~= list.take(count));
        lemma_failure_stays(outcome, list.drop_last(), count);
    } else {
        assert(list.take(count) =~= list);
    }
}

/// A value that may be missing is there in terms of sequences if and only if it is there, whatever it
/// holds, and holds the same.
pub proof fn law_optional_values(
    bytes: Option<Vec<u8>>,
    string: Option<String>,
    data: Result<Option<Vec<u8>>, Error>,
)
    ensures
        bytes matches Some(found) ==> optional_bytes(bytes) == Some(found@),
        bytes is None ==> optional_bytes(bytes) is None,
        string matches Some(found) ==> optional_string(string) == Some(found@),
        string is None ==> optional_string(string) is None,
        match data {
            Ok(Some(found)) => optional_data_result(data) == Ok::<Option<Seq<u8>>, Seq<char>>(
                Some(found@),
            ),
            Ok(None) => optional_data_result(data) == Ok::<Option<Seq<u8>>, Seq<char>>(None),
            Err(error) => optional_data_result(data) == Err::<Option<Seq<u8>>, Seq<char>>(
                error.message@,
            ),
        },
{
}

/// A result succeeds in terms of sequences if and only if it succeeds, with the same value, or fails
/// with the same message.
pub proof fn law_results(
    bytes: Result<Vec<u8>, String>,
    data: Result<Vec<u8>, Error>,
    text: Result<String, String>,
    message: Result<String, Error>,
    flag: Result<bool, String>,
)
    ensures
        bytes matches Ok(value) ==> bytes_result(bytes) == Ok::<Seq<u8>, Seq<char>>(value@),
        bytes matches Err(cause) ==> bytes_result(bytes) == Err::<Seq<u8>, Seq<char>>(cause@),
        data matches Ok(value) ==> data_result(data) == Ok::<Seq<u8>, Seq<char>>(value@),
        data matches Err(error) ==> data_result(data) == Err::<Seq<u8>, Seq<char>>(error.message@),
        text matches Ok(value) ==> text_result(text) == Ok::<Seq<char>, Seq<char>>(value@),
        text matches Err(cause) ==> text_result(text) == Err::<Seq<char>, Seq<char>>(cause@),
        message matches Ok(value) ==> message_result(message) == Ok::<Seq<char>, Seq<char>>(value@),
        message matches Err(error) ==> message_result(message) == Err::<Seq<char>, Seq<char>>(
            error.message@,
        ),
        flag matches Ok(value) ==> plain_result(flag) == Ok::<bool, Seq<char>>(value),
        flag matches Err(cause) ==> plain_result(flag) == Err::<bool, Seq<char>>(cause@),
{
}

/// Texts keep their number and their places.
pub proof fn law_strings(texts: Seq<String>, i: int)
    requires
        0 <= i < texts.len(),
    ensures
        strings(texts).len() == texts.len(),
        strings(texts)[i] == texts[i]@,
{
}

/// A text that may be missing is taken as it is.
pub proof fn law_optional_text(text: Option<&str>)
    ensures
        text matches Some(found) ==> optional_text(text) == Some(found@),
        text is None ==> optional_text(text) is None,
{
}

} // verus!
