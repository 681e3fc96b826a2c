//! The models the API offers, read from its `/models` response.
use vstd::prelude::*;

use crate::text::owned;

verus! {

/// Why the list of models could not be read.
#[derive(Debug)]
pub enum ModelsError {
    /// The response has no `data` array.
    NoData,
    /// The `data` array names no model.
    NoModels,
    /// The response is not JSON: the parser's message.
    Json(String),
}

impl ModelsError {
    /// The text shown to the user.
    pub fn message(&self) -> (r: String)
        ensures
            r@ == match self {
                ModelsError::NoData => "DeepSeek models response has no data"@,
                ModelsError::NoModels => "DeepSeek returned no models"@,
                ModelsError::Json(m) => m@,
            },
    {
        match self {
            ModelsError::NoData => owned("DeepSeek models response has no data"),
            ModelsError::NoModels => owned("DeepSeek returned no models"),
            ModelsError::Json(m) => m.clone(),
        }
    }
}

/// The ids that are present, in order.
pub open spec fn present_ids(data: Seq<Option<Seq<char>>>) -> Seq<Seq<char>>
    decreases data.len(),
{
    if data.len() == 0 {
        seq![]
    } else {
        present_ids(data.drop_last()) + match data.last() {
            Some(id) => seq![id],
            None => seq![],
        }
    }
}

/// The entries of `data` as plain values.
pub open spec fn data_view(data: Seq<Option<String>>) -> Seq<Option<Seq<char>>> {
    data.map_values(
        |d: Option<String>|
            match d {
                Some(s) => Some(s@),
                None => None,
            },
    )
}

/// The model names of a `/models` response, given its `data` array (absent
/// when the response has none) with each entry's `id` when that is a
/// string: the ids in order, entries without one skipped; an error when
/// there is no array or no id.
pub fn model_ids(data: Option<Vec<Option<String>>>) -> (r: Result<Vec<String>, ModelsError>)
    ensures
        match data {
            None => r matches Err(ModelsError::NoData),
            Some(d) => if present_ids(data_view(d@)).len() == 0 {
                r matches Err(ModelsError::NoModels)
            } else {
                r matches Ok(ids) && ids@.map_values(|s: String| s@) == present_ids(
                    data_view(d@),
                )
            },
        },
{
    let entries = match data {
        None => {
            return Err(ModelsError::NoData);
        },
        Some(d) => d,
    };
    let ghost dv = data_view(entries@);
    let mut ids: Vec<String> = Vec::new();
    assert(dv.take(0) =~= Seq::<Option<Seq<char>>>::empty());
    for i in 0..entries.len()
        invariant
            dv == data_view(entries@),
            ids@.map_values(|s: String| s@) == present_ids(dv.take(i as int)),
    {
        assert(dv.take(i + 1).drop_last() =~= dv.take(i as int));
        let ghost before = ids@;
        match &entries[i] {
            Some(id) => {
                ids.push(id.clone());
                assert(ids@.map_values(|s: String| s@) =~= before.map_values(|s: String| s@).push(
                    id@,
                ));
            },
            None => {},
        }
    }
    assert(dv.take(entries.len() as int) =~= dv);
    if ids.len() == 0 {
        Err(ModelsError::NoModels)
    } else {
        Ok(ids)
    }
}

/// What `serde_json` reads from a `/models` response body: its `data`
/// array when there is one, with each entry's `id` when that is a string;
/// or the parser's message when the body is not JSON.
pub uninterp spec fn json_model_data(body: Seq<char>) -> Result<Option<Seq<Option<Seq<char>>>>, Seq<char>>;

/// The entries of an optional `data` array as plain values.
pub open spec fn opt_data_view(data: Option<Vec<Option<String>>>) -> Option<Seq<Option<Seq<char>>>> {
    match data {
        Some(d) => Some(data_view(d@)),
        None => None,
    }
}

/// Calls `serde_json::from_str` to read the body as a JSON value, then
/// takes `as_array` of its `data` field and `as_str` of each entry's `id`;
/// claimed: the result is `json_model_data` of the body, and an error
/// carries the parser's message exactly when that is an error.
#[verifier::external_body]
fn parse_model_data(body: &str) -> (r: Result<Option<Vec<Option<String>>>, String>)
    ensures
        match json_model_data(body@) {
            Ok(d) => r matches Ok(x) && opt_data_view(x) == d,
            Err(e) => r matches Err(m) && m@ == e,
        },
{
    let v: serde_json::Value = serde_json::from_str(body).map_err(|e| e.to_string())?;
    Ok(v["data"].as_array().map(|entries| {
        entries.iter().map(|m| m["id"].as_str().map(String::from)).collect()
    }))
}

/// The model names of a `/models` response body: an error with the
/// parser's message when it is not JSON, otherwise as `model_ids` reads
/// its `data` array.
pub fn models_from_body(body: &str) -> (r: Result<Vec<String>, ModelsError>)
    ensures
        match json_model_data(body@) {
            Err(e) => r matches Err(ModelsError::Json(m)) && m@ == e,
            Ok(None) => r matches Err(ModelsError::NoData),
            Ok(Some(d)) => if present_ids(d).len() == 0 {
                r matches Err(ModelsError::NoModels)
            } else {
                r matches Ok(ids) && ids@.map_values(|s: String| s@) == present_ids(d)
            },
        },
{
    match parse_model_data(body) {
        Err(m) => Err(ModelsError::Json(m)),
        Ok(data) => model_ids(data),
    }
}

} // verus!
