//! The JSON text in which values are hashed and exchanged between peers.
//!
//! Field names and their order are fixed here; string escaping is done by
//! `serde_json`.

use vstd::prelude::*;

verus! {

/// The JSON string literal that `serde_json` writes for `s`, quotes and
/// escapes included, or `None` where it reports an error.
pub uninterp spec fn json_string(s: Seq<char>) -> Option<Seq<char>>;

/// What `serde_json` reads from `text` as a JSON array of strings, or `None`
/// where `text` is not such an array.
pub uninterp spec fn json_string_list(text: Seq<char>) -> Option<Seq<Seq<char>>>;

/// The views of the strings of a list.
pub open spec fn texts(items: Seq<String>) -> Seq<Seq<char>> {
    items.map_values(|s: String| s@)
}

/// The view of an optional string.
pub open spec fn text_of(s: Option<String>) -> Option<Seq<char>> {
    match s {
        Some(t) => Some(t@),
        None => None,
    }
}

/// Calls `serde_json::to_string` on a string slice. The contract names the
/// outcome, text or error, and does not promise success.
#[verifier::external_body]
pub(crate) fn json_string_text(s: &str) -> (r: Option<String>)
    ensures
        text_of(r) == json_string(s@),
{
    serde_json::to_string(s).ok()
}

/// Calls `serde_json::from_str` for a `Vec<String>`. The contract names the
/// outcome, list or error.
#[verifier::external_body]
pub(crate) fn parse_string_list(text: &str) -> (r: Option<Vec<String>>)
    ensures
        match r {
            Some(items) => json_string_list(text@) == Some(texts(items@)),
            None => json_string_list(text@) is None,
        },
{
    serde_json::from_str::<Vec<String>>(text).ok()
}

/// A value with a canonical JSON text.
pub trait Encode {
    /// The canonical text, or `None` where the value cannot be encoded. A
    /// type that says nothing else has no canonical text.
    open spec fn encoding(&self) -> Option<Seq<char>> {
        None
    }

    /// Writes the canonical text.
    fn encode(&self) -> (r: Option<String>)
        ensures
            text_of(r) == self.encoding(),
    ;
}

impl Encode for String {
    open spec fn encoding(&self) -> Option<Seq<char>> {
        json_string(self@)
    }

    fn encode(&self) -> (r: Option<String>) {
        json_string_text(self.as_str())
    }
}

/// The canonical texts of the items, if every item has one.
pub open spec fn encodings<T: Encode>(items: Seq<T>) -> Option<Seq<Seq<char>>>
    decreases items.len(),
{
    if items.len() == 0 {
        Some(Seq::empty())
    } else {
        match (encodings(items.drop_last()), items.last().encoding()) {
            (Some(before), Some(last)) => Some(before.push(last)),
            _ => None,
        }
    }
}

/// The parts separated by commas.
pub open spec fn comma_separated(parts: Seq<Seq<char>>) -> Seq<char>
    decreases parts.len(),
{
    if parts.len() == 0 {
        Seq::empty()
    } else if parts.len() == 1 {
        parts[0]
    } else {
        comma_separated(parts.drop_last()) + ","@ + parts.last()
    }
}

/// The JSON array of the items' canonical texts.
pub open spec fn list_encoding<T: Encode>(items: Seq<T>) -> Option<Seq<char>> {
    match encodings(items) {
        Some(parts) => Some("["@ + comma_separated(parts) + "]"@),
        None => None,
    }
}

/// Writes the items as a JSON array, in order.
pub fn encode_list<T: Encode>(items: &Vec<T>) -> (r: Option<String>)
    ensures
        text_of(r) == list_encoding(items@),
{
    let mut out = String::from_str("[");
    let ghost mut parts: Seq<Seq<char>> = Seq::empty();
    let mut i: usize = 0;
    assert(items@.take(0) =~= Seq::<T>::empty());
    while i < items.len()
        invariant
            i <= items.len(),
            encodings(items@.take(i as int)) == Some(parts),
            out@ == "["@ + comma_separated(parts),
        decreases items.len() - i,
    {
        let ghost grown = items@.take(i + 1);
        assert(grown.drop_last() =~= items@.take(i as int));
        assert(grown.last() == items@[i as int]);
        match items[i].encode() {
            Some(text) => {
                if i > 0 {
                    out.append(",");
                }
                out.append(text.as_str());
                proof {
                    let next = parts.push(text@);
                    assert(next.drop_last() =~= parts);
                    assert(parts.len() == i) by {
                        lemma_encodings_len(items@.take(i as int));
                    }
                    if i == 0 {
                        assert(parts =~= Seq::<Seq<char>>::empty());
                        assert(comma_separated(parts) =~= Seq::<char>::empty());
                        assert(out@ =~= "["@ + comma_separated(next));
                    } else {
                        assert(out@ =~= "["@ + comma_separated(next));
                    }
                    parts = next;
                }
            },
            None => {
                proof {
                    lemma_encodings_prefix(items@, i + 1);
                }
                return None;
            },
        }
        i = i + 1;
    }
    assert(items@.take(i as int) =~= items@);
    out.append("]");
    assert(out@ =~= "["@ + comma_separated(parts) + "]"@);
    Some(out)
}

/// Where every item has a text, there are as many texts as items.
pub proof fn lemma_encodings_len<T: Encode>(items: Seq<T>)
    ensures
        encodings(items) matches Some(parts) ==> parts.len() == items.len(),
    decreases items.len(),
{
    if items.len() > 0 {
        lemma_encodings_len(items.drop_last());
    }
}

/// Where a prefix of the items has no encoding, neither has the whole.
pub proof fn lemma_encodings_prefix<T: Encode>(items: Seq<T>, n: int)
    requires
        0 <= n <= items.len(),
        encodings(items.take(n)) is None,
    ensures
        encodings(items) is None,
    decreases items.len(),
{
    if n < items.len() {
        assert(items.drop_last().take(n) =~= items.take(n));
        lemma_encodings_prefix(items.drop_last(), n);
    } else {
        assert(items.take(n) =~= items);
    }
}

} // verus!
