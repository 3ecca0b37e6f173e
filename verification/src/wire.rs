//! The exchange's wire protocol: recognizing and decoding depth-update
//! frames and snapshot responses, and framing subscription requests.
//!
//! JSON is parsed by serde_json behind a handful of trusted wrappers.
//! What serde_json computes depends on its input alone, so its results
//! are named: `json_doc_of` names the document a text parses to, and
//! `json_view` names what a parsed value holds, as a [`JsonDoc`] — a
//! specification-level JSON tree. The wrappers' contracts say, over
//! those names, exactly what serde_json's source shows; the decoders
//! built on them are verified, so "this text decodes to that update"
//! is a proved equivalence, not a guarded implication. The
//! subscription frame runs the other way: it is built character by
//! character in verified code, against a spec that spells out the
//! full text.

use vstd::prelude::*;

use crate::reconcile::{levels_view, DepthUpdate, DepthUpdateView, RawLevel};

verus! {

// --- a specification model of JSON documents -------------------------------

/// A JSON document, as specification data. Numbers are classified by
/// the one reading the exchange needs: representable as a `u64` or
/// not (negative, fractional or out of range).
pub enum JsonDoc {
    /// JSON `null`.
    Null,
    /// A JSON boolean.
    Bool(bool),
    /// A JSON number that is an integer representable as a `u64`.
    UNum(u64),
    /// Any other JSON number.
    OtherNum,
    /// A JSON string.
    Str(Seq<char>),
    /// A JSON array.
    Arr(Seq<JsonDoc>),
    /// A JSON object: its members, keyed by member name. Duplicate
    /// keys keep the last member, as serde_json's parser does.
    Obj(Map<Seq<char>, JsonDoc>),
}

// --- trusted declarations for serde_json ---------------------------------

/// serde_json's parsed JSON document, opaque here; `json_view` names
/// what a value of it holds.
#[verifier::external_type_specification]
#[verifier::external_body]
pub struct ExValue(serde_json::Value);

/// serde_json's parse error, carried only to be discarded or rendered.
#[verifier::external_type_specification]
#[verifier::external_body]
pub struct ExJsonError(serde_json::Error);

/// The document a parsed `serde_json::Value` holds.
pub uninterp spec fn json_view(v: serde_json::Value) -> JsonDoc;

/// The document that parsing a text with serde_json yields, or nothing
/// where serde_json rejects the text (malformed JSON, or deeper than
/// its recursion limit). serde_json's parse depends on the text alone.
pub uninterp spec fn json_doc_of(s: Seq<char>) -> Option<JsonDoc>;

/// Relies on serde_json::from_str::<Value>: parses one JSON document
/// from text; succeeds exactly where serde_json accepts the text, and
/// the parsed value holds the text's document.
#[verifier::external_body]
fn json_parse(text: &str) -> (r: Result<serde_json::Value, serde_json::Error>)
    ensures
        r is Ok <==> json_doc_of(text@) is Some,
        r matches Ok(v) ==> json_doc_of(text@) matches Some(doc) && json_view(v) == doc,
{
    serde_json::from_str::<serde_json::Value>(text)
}

/// Relies on serde_json::Value::get with a string index: on an object
/// it looks the key up among the members, on anything else it returns
/// nothing.
#[verifier::external_body]
fn json_get<'a>(v: &'a serde_json::Value, key: &str) -> (r: Option<&'a serde_json::Value>)
    ensures
        r is Some <==> (json_view(*v) matches JsonDoc::Obj(m) && m.dom().contains(key@)),
        r matches Some(w) ==> (json_view(*v) matches JsonDoc::Obj(m) && json_view(*w) == m[key@]),
{
    v.get(key)
}

/// Relies on serde_json::Value::as_str: the payload if the value is a
/// JSON string, and nothing otherwise.
#[verifier::external_body]
fn json_as_str<'a>(v: &'a serde_json::Value) -> (r: Option<&'a str>)
    ensures
        r is Some <==> json_view(*v) is Str,
        r matches Some(s) ==> json_view(*v) == JsonDoc::Str(s@),
{
    v.as_str()
}

/// Relies on serde_json::Value::as_u64: the integer if the value is a
/// JSON number representable as a `u64`, and nothing otherwise.
#[verifier::external_body]
fn json_as_u64(v: &serde_json::Value) -> (r: Option<u64>)
    ensures
        r is Some <==> json_view(*v) is UNum,
        r matches Some(n) ==> json_view(*v) == JsonDoc::UNum(n),
{
    v.as_u64()
}

/// Relies on serde_json::Value::as_array: the element vector if the
/// value is a JSON array, and nothing otherwise; the elements hold the
/// array's documents in order.
#[verifier::external_body]
fn json_as_array<'a>(v: &'a serde_json::Value) -> (r: Option<&'a Vec<serde_json::Value>>)
    ensures
        r is Some <==> json_view(*v) is Arr,
        r matches Some(arr) ==> (json_view(*v) matches JsonDoc::Arr(elems) && arr@.len()
            == elems.len() && forall|i: int|
            0 <= i < elems.len() ==> json_view(#[trigger] arr@[i]) == elems[i]),
{
    v.as_array()
}

/// What lowercasing a string yields. The result of
/// `str::to_lowercase` depends on the characters alone, so it can be
/// named, but it is not spelled out here.
pub uninterp spec fn lower_of(s: Seq<char>) -> Seq<char>;

/// Relies on str::to_lowercase: the lowercase equivalent of `s`,
/// depending on the characters of `s` alone; an empty string stays
/// empty.
#[verifier::external_body]
pub(crate) fn lowercase(s: &str) -> (r: String)
    ensures
        r@ == lower_of(s@),
        s@.len() == 0 ==> r@.len() == 0,
{
    s.to_lowercase()
}

// --- the depth-update pre-filter ------------------------------------------

/// The marker every depth-update frame carries; other frames are
/// dropped without being parsed.
pub open spec fn depth_marker() -> Seq<char> {
    "\"e\":\"depthUpdate\""@
}

/// `t` contains the depth-update marker as a contiguous run.
pub open spec fn has_depth_marker(t: Seq<char>) -> bool {
    exists|k: int|
        0 <= k && k + depth_marker().len() <= t.len() && #[trigger] t.subrange(
            k,
            k + depth_marker().len() as int,
        ) == depth_marker()
}

/// Scan `text` for the depth-update marker: the cheap pre-filter that
/// keeps control and acknowledgement frames away from the JSON parser.
pub fn contains_depth_marker(text: &str) -> (r: bool)
    ensures
        r == has_depth_marker(text@),
{
    let marker = "\"e\":\"depthUpdate\"";
    let m = marker.unicode_len();
    let n = text.unicode_len();
    assert(marker@ == depth_marker());
    if m > n {
        return false;
    }
    let mut k: usize = 0;
    while k <= n - m
        invariant
            marker@ == depth_marker(),
            m == depth_marker().len(),
            m <= n,
            n == text@.len(),
            0 <= k <= n - m + 1,
            forall|k0: int|
                0 <= k0 < k ==> #[trigger] text@.subrange(k0, k0 + depth_marker().len() as int)
                    != depth_marker(),
        decreases n - m - k + 1,
    {
        let mut j: usize = 0;
        while j < m && text.get_char(k + j) == marker.get_char(j)
            invariant
                marker@ == depth_marker(),
                m == depth_marker().len(),
                m <= n,
                n == text@.len(),
                k <= n - m,
                0 <= j <= m,
                forall|j0: int| 0 <= j0 < j ==> text@[k + j0] == depth_marker()[j0],
            decreases m - j,
        {
            j = j + 1;
        }
        if j == m {
            proof {
                let sub = text@.subrange(k as int, k + depth_marker().len() as int);
                assert forall|j0: int| 0 <= j0 < m implies sub[j0] == depth_marker()[j0] by {
                    assert(sub[j0] == text@[k + j0]);
                }
                assert(sub =~= depth_marker());
            }
            return true;
        }
        proof {
            let sub = text@.subrange(k as int, k + depth_marker().len() as int);
            assert(sub[j as int] == text@[k + j]);
            assert(sub != depth_marker());
        }
        k = k + 1;
    }
    proof {
        assert(!has_depth_marker(text@)) by {
            if has_depth_marker(text@) {
                let k0 = choose|k0: int|
                    0 <= k0 && k0 + depth_marker().len() <= text@.len() && #[trigger] text@.subrange(
                        k0,
                        k0 + depth_marker().len() as int,
                    ) == depth_marker();
                assert(k0 < k);
                assert(false);
            }
        }
    }
    false
}

// --- decoding frames into plain values -------------------------------------

/// The documents a vector of parsed values holds, element by element.
pub open spec fn docs_of(vs: Seq<serde_json::Value>) -> Seq<JsonDoc> {
    vs.map_values(|v: serde_json::Value| json_view(v))
}

/// Read a level list out of a sequence of JSON documents: every
/// element must be an array of exactly two strings, or the whole list
/// fails, as a typed decoder would fail it.
pub open spec fn levels_of(elems: Seq<JsonDoc>) -> Option<Seq<(Seq<char>, Seq<char>)>>
    decreases elems.len(),
{
    if elems.len() == 0 {
        Some(Seq::empty())
    } else {
        match levels_of(elems.drop_last()) {
            None => None,
            Some(pre) => match elems.last() {
                JsonDoc::Arr(pair) => {
                    if pair.len() == 2 {
                        match (pair[0], pair[1]) {
                            (JsonDoc::Str(p), JsonDoc::Str(q)) => Some(pre.push((p, q))),
                            _ => None,
                        }
                    } else {
                        None
                    }
                },
                _ => None,
            },
        }
    }
}

/// Once a prefix of the list fails, the whole list fails.
proof fn lemma_levels_of_prefix_none(elems: Seq<JsonDoc>, i: int)
    requires
        0 <= i <= elems.len(),
        levels_of(elems.take(i)) is None,
    ensures
        levels_of(elems) is None,
    decreases elems.len() - i,
{
    if i < elems.len() {
        assert(elems.take(i + 1).drop_last() =~= elems.take(i));
        lemma_levels_of_prefix_none(elems, i + 1);
    } else {
        assert(elems.take(i) =~= elems);
    }
}

/// The string payload of member `k`, if the object holds a string
/// there.
pub open spec fn str_field(m: Map<Seq<char>, JsonDoc>, k: Seq<char>) -> Option<Seq<char>> {
    if m.dom().contains(k) {
        match m[k] {
            JsonDoc::Str(s) => Some(s),
            _ => None,
        }
    } else {
        None
    }
}

/// The integer payload of member `k`, if the object holds a
/// `u64`-representable number there.
pub open spec fn unum_field(m: Map<Seq<char>, JsonDoc>, k: Seq<char>) -> Option<u64> {
    if m.dom().contains(k) {
        match m[k] {
            JsonDoc::UNum(n) => Some(n),
            _ => None,
        }
    } else {
        None
    }
}

/// The level list under member `k`, if the object holds a well-formed
/// one there.
pub open spec fn levels_field(m: Map<Seq<char>, JsonDoc>, k: Seq<char>) -> Option<
    Seq<(Seq<char>, Seq<char>)>,
> {
    if m.dom().contains(k) {
        match m[k] {
            JsonDoc::Arr(elems) => levels_of(elems),
            _ => None,
        }
    } else {
        None
    }
}

/// The depth update a JSON document decodes to: event kind and time,
/// symbol, the two cursors and the two level lists must all be present
/// with their expected types, or the frame is dropped whole. The kind
/// and time are required but not kept.
pub open spec fn depth_update_of(doc: JsonDoc) -> Option<DepthUpdateView> {
    match doc {
        JsonDoc::Obj(m) => {
            if str_field(m, "e"@) is Some && unum_field(m, "E"@) is Some {
                match (str_field(m, "s"@), unum_field(m, "U"@), unum_field(m, "u"@), levels_field(m, "b"@), levels_field(m, "a"@)) {
                    (
                        Some(symbol),
                        Some(first),
                        Some(last),
                        Some(bids),
                        Some(asks),
                    ) => Some(
                        DepthUpdateView {
                            symbol,
                            first_update_id: first,
                            final_update_id: last,
                            bids,
                            asks,
                        },
                    ),
                    _ => None,
                }
            } else {
                None
            }
        },
        _ => None,
    }
}

/// What a whole stream frame decodes to: serde_json's document, then
/// the typed read above.
pub open spec fn frame_decode(s: Seq<char>) -> Option<DepthUpdateView> {
    match json_doc_of(s) {
        Some(doc) => depth_update_of(doc),
        None => None,
    }
}

/// The plain fields of a snapshot response, at the specification
/// level.
pub struct SnapshotResponseView {
    /// Sequence cursor the snapshot is consistent up to.
    pub last_update_id: u64,
    /// Raw bid levels, as (price, quantity) character sequences.
    pub bids: Seq<(Seq<char>, Seq<char>)>,
    /// Raw ask levels.
    pub asks: Seq<(Seq<char>, Seq<char>)>,
}

/// The snapshot a JSON document decodes to: the cursor and both level
/// lists must be present with their expected types, or the response is
/// rejected whole.
pub open spec fn snapshot_of(doc: JsonDoc) -> Option<SnapshotResponseView> {
    match doc {
        JsonDoc::Obj(m) => {
            match (unum_field(m, "lastUpdateId"@), levels_field(m, "bids"@), levels_field(m, "asks"@)) {
                (Some(id), Some(bids), Some(asks)) => Some(
                    SnapshotResponseView { last_update_id: id, bids, asks },
                ),
                _ => None,
            }
        },
        _ => None,
    }
}

/// What a whole snapshot body decodes to.
pub open spec fn snapshot_decode(s: Seq<char>) -> Option<SnapshotResponseView> {
    match json_doc_of(s) {
        Some(doc) => snapshot_of(doc),
        None => None,
    }
}

/// Read a raw level list out of a JSON array of `[price, quantity]`
/// string pairs: succeeds exactly where the spec-level read of the
/// elements' documents does, and yields exactly its levels.
fn raw_levels_from(arr: &Vec<serde_json::Value>) -> (r: Option<Vec<RawLevel>>)
    ensures
        r is Some <==> levels_of(docs_of(arr@)) is Some,
        r matches Some(ls) ==> Some(levels_view(ls@)) == levels_of(docs_of(arr@)),
{
    let ghost docs = docs_of(arr@);
    let mut out: Vec<RawLevel> = Vec::new();
    let mut i: usize = 0;
    while i < arr.len()
        invariant
            0 <= i <= arr.len(),
            docs == docs_of(arr@),
            docs.len() == arr@.len(),
            levels_of(docs.take(i as int)) matches Some(pre) && pre == levels_view(out@),
        decreases arr.len() - i,
    {
        proof {
            assert(docs.take(i + 1).drop_last() =~= docs.take(i as int));
            assert(docs[i as int] == json_view(arr@[i as int]));
        }
        let pair = match json_as_array(&arr[i]) {
            Some(pair) => pair,
            None => {
                proof {
                    lemma_levels_of_prefix_none(docs, i + 1);
                }
                return None;
            },
        };
        let ghost elems = json_view(arr@[i as int])->Arr_0;
        proof {
            assert(docs_of(pair@) =~= elems);
        }
        if pair.len() != 2 {
            proof {
                lemma_levels_of_prefix_none(docs, i + 1);
            }
            return None;
        }
        let price = match json_as_str(&pair[0]) {
            Some(p) => p,
            None => {
                proof {
                    assert(json_view(pair@[0]) == elems[0]);
                    lemma_levels_of_prefix_none(docs, i + 1);
                }
                return None;
            },
        };
        let quantity = match json_as_str(&pair[1]) {
            Some(q) => q,
            None => {
                proof {
                    assert(json_view(pair@[0]) == elems[0]);
                    assert(json_view(pair@[1]) == elems[1]);
                    lemma_levels_of_prefix_none(docs, i + 1);
                }
                return None;
            },
        };
        let ghost out0 = out@;
        out.push(RawLevel { price: price.to_owned(), quantity: quantity.to_owned() });
        proof {
            assert(json_view(pair@[0]) == elems[0]);
            assert(json_view(pair@[1]) == elems[1]);
            assert(levels_view(out@) =~= levels_view(out0).push((price@, quantity@)));
        }
        i = i + 1;
    }
    proof {
        assert(docs.take(arr@.len() as int) =~= docs);
    }
    Some(out)
}

/// Read the string member `key` of a parsed object.
fn get_str_field(v: &serde_json::Value, key: &str) -> (r: Option<String>)
    ensures
        json_view(*v) matches JsonDoc::Obj(m) ==> {
            &&& r is Some <==> str_field(m, key@) is Some
            &&& (r matches Some(s) ==> Some(s@) == str_field(m, key@))
        },
        !(json_view(*v) is Obj) ==> r is None,
{
    match json_get(v, key) {
        Some(x) => match json_as_str(x) {
            Some(s) => Some(s.to_owned()),
            None => None,
        },
        None => None,
    }
}

/// Read the integer member `key` of a parsed object.
fn get_u64_field(v: &serde_json::Value, key: &str) -> (r: Option<u64>)
    ensures
        json_view(*v) matches JsonDoc::Obj(m) ==> {
            &&& r is Some <==> unum_field(m, key@) is Some
            &&& (r matches Some(n) ==> Some(n) == unum_field(m, key@))
        },
        !(json_view(*v) is Obj) ==> r is None,
{
    match json_get(v, key) {
        Some(x) => json_as_u64(x),
        None => None,
    }
}

/// Read the level-list member `key` of a parsed object.
fn get_levels_field(v: &serde_json::Value, key: &str) -> (r: Option<Vec<RawLevel>>)
    ensures
        json_view(*v) matches JsonDoc::Obj(m) ==> {
            &&& r is Some <==> levels_field(m, key@) is Some
            &&& (r matches Some(ls) ==> Some(levels_view(ls@)) == levels_field(m, key@))
        },
        !(json_view(*v) is Obj) ==> r is None,
{
    match json_get(v, key) {
        Some(x) => match json_as_array(x) {
            Some(arr) => {
                proof {
                    assert(docs_of(arr@) =~= json_view(*x)->Arr_0);
                }
                raw_levels_from(arr)
            },
            None => None,
        },
        None => None,
    }
}

/// Read the fields of a depth-update frame out of a parsed document:
/// succeeds exactly where the typed read of the document does, and
/// yields exactly that update.
fn update_from_value(v: &serde_json::Value) -> (r: Option<DepthUpdate>)
    ensures
        r is Some <==> depth_update_of(json_view(*v)) is Some,
        r matches Some(u) ==> Some(u@) == depth_update_of(json_view(*v)),
{
    if get_str_field(v, "e").is_none() {
        return None;
    }
    if get_u64_field(v, "E").is_none() {
        return None;
    }
    let symbol = match get_str_field(v, "s") {
        Some(s) => s,
        None => {
            return None;
        },
    };
    let first_update_id = match get_u64_field(v, "U") {
        Some(id) => id,
        None => {
            return None;
        },
    };
    let final_update_id = match get_u64_field(v, "u") {
        Some(id) => id,
        None => {
            return None;
        },
    };
    let bids = match get_levels_field(v, "b") {
        Some(levels) => levels,
        None => {
            return None;
        },
    };
    let asks = match get_levels_field(v, "a") {
        Some(levels) => levels,
        None => {
            return None;
        },
    };
    let u = DepthUpdate { symbol, first_update_id, final_update_id, bids, asks };
    proof {
        assert(Some(u@) == depth_update_of(json_view(*v)));
    }
    Some(u)
}

/// Decode a stream frame into a depth update: an update comes out
/// exactly when the frame carries the depth-update marker and its text
/// decodes as a depth-update frame, and it is exactly the decoded
/// update; everything else is dropped, the deserialization error
/// absorbed locally.
pub fn parse_depth_update(text: &str) -> (r: Option<DepthUpdate>)
    ensures
        r is Some <==> (has_depth_marker(text@) && frame_decode(text@) is Some),
        r matches Some(u) ==> Some(u@) == frame_decode(text@),
{
    if !contains_depth_marker(text) {
        return None;
    }
    let v = match json_parse(text) {
        Ok(v) => v,
        Err(_) => {
            return None;
        },
    };
    update_from_value(&v)
}

/// The plain fields of a snapshot response: the sequence cursor and
/// the raw level lists.
pub struct SnapshotResponse {
    /// Sequence cursor the snapshot is consistent up to.
    pub last_update_id: u64,
    /// Raw bid levels, as `[price, quantity]` strings.
    pub bids: Vec<RawLevel>,
    /// Raw ask levels, as `[price, quantity]` strings.
    pub asks: Vec<RawLevel>,
}

impl View for SnapshotResponse {
    type V = SnapshotResponseView;

    open spec fn view(&self) -> SnapshotResponseView {
        SnapshotResponseView {
            last_update_id: self.last_update_id,
            bids: levels_view(self.bids@),
            asks: levels_view(self.asks@),
        }
    }
}

/// Decode the body of a snapshot response: a response comes out
/// exactly when the body decodes with the cursor and both level lists
/// present and well-typed, and it is exactly the decoded response.
pub fn parse_snapshot(text: &str) -> (r: Option<SnapshotResponse>)
    ensures
        r is Some <==> snapshot_decode(text@) is Some,
        r matches Some(resp) ==> Some(resp@) == snapshot_decode(text@),
{
    let v = match json_parse(text) {
        Ok(v) => v,
        Err(_) => {
            return None;
        },
    };
    let last_update_id = match get_u64_field(&v, "lastUpdateId") {
        Some(id) => id,
        None => {
            return None;
        },
    };
    let bids = match get_levels_field(&v, "bids") {
        Some(levels) => levels,
        None => {
            return None;
        },
    };
    let asks = match get_levels_field(&v, "asks") {
        Some(levels) => levels,
        None => {
            return None;
        },
    };
    let resp = SnapshotResponse { last_update_id, bids, asks };
    proof {
        assert(Some(resp@) == snapshot_decode(text@));
    }
    Some(resp)
}


// --- framing the subscription request ---------------------------------------

/// The character of a single decimal digit.
pub open spec fn digit_char(d: int) -> char {
    if d == 0 {
        '0'
    } else if d == 1 {
        '1'
    } else if d == 2 {
        '2'
    } else if d == 3 {
        '3'
    } else if d == 4 {
        '4'
    } else if d == 5 {
        '5'
    } else if d == 6 {
        '6'
    } else if d == 7 {
        '7'
    } else if d == 8 {
        '8'
    } else {
        '9'
    }
}

/// The decimal digits of `n`, most significant first.
pub open spec fn dec_digits(n: nat) -> Seq<char>
    decreases n,
{
    if n < 10 {
        seq![digit_char(n as int)]
    } else {
        dec_digits(n / 10).push(digit_char((n % 10) as int))
    }
}

/// The full text of a subscription control frame for one stream name
/// and request id.
pub open spec fn subscribe_frame_spec(symbol: Seq<char>, id: u64) -> Seq<char> {
    "{\"method\":\"SUBSCRIBE\",\"params\":[\""@ + symbol + "@depth@100ms\"],\"id\":"@ + dec_digits(
        id as nat,
    ) + "}"@
}

/// Append one decimal digit character.
fn push_digit(out: &mut String, d: u64)
    requires
        d < 10,
    ensures
        final(out)@ == old(out)@ + seq![digit_char(d as int)],
{
    match d {
        0 => {
            out.append("0");
            proof {
                reveal_strlit("0");
                assert(old(out)@ + "0"@ =~= old(out)@ + seq![digit_char(0)]);
            }
        },
        1 => {
            out.append("1");
            proof {
                reveal_strlit("1");
                assert(old(out)@ + "1"@ =~= old(out)@ + seq![digit_char(1)]);
            }
        },
        2 => {
            out.append("2");
            proof {
                reveal_strlit("2");
                assert(old(out)@ + "2"@ =~= old(out)@ + seq![digit_char(2)]);
            }
        },
        3 => {
            out.append("3");
            proof {
                reveal_strlit("3");
                assert(old(out)@ + "3"@ =~= old(out)@ + seq![digit_char(3)]);
            }
        },
        4 => {
            out.append("4");
            proof {
                reveal_strlit("4");
                assert(old(out)@ + "4"@ =~= old(out)@ + seq![digit_char(4)]);
            }
        },
        5 => {
            out.append("5");
            proof {
                reveal_strlit("5");
                assert(old(out)@ + "5"@ =~= old(out)@ + seq![digit_char(5)]);
            }
        },
        6 => {
            out.append("6");
            proof {
                reveal_strlit("6");
                assert(old(out)@ + "6"@ =~= old(out)@ + seq![digit_char(6)]);
            }
        },
        7 => {
            out.append("7");
            proof {
                reveal_strlit("7");
                assert(old(out)@ + "7"@ =~= old(out)@ + seq![digit_char(7)]);
            }
        },
        8 => {
            out.append("8");
            proof {
                reveal_strlit("8");
                assert(old(out)@ + "8"@ =~= old(out)@ + seq![digit_char(8)]);
            }
        },
        _ => {
            out.append("9");
            proof {
                reveal_strlit("9");
                assert(old(out)@ + "9"@ =~= old(out)@ + seq![digit_char(9)]);
            }
        },
    }
}

/// Append the decimal rendering of `n`.
fn push_u64(out: &mut String, n: u64)
    ensures
        final(out)@ == old(out)@ + dec_digits(n as nat),
    decreases n,
{
    if n >= 10 {
        push_u64(out, n / 10);
        push_digit(out, n % 10);
        proof {
            assert(out@ =~= old(out)@ + dec_digits(n as nat));
        }
    } else {
        push_digit(out, n);
    }
}

/// Build the subscription control frame for a stream symbol: the exact
/// JSON text the session sends to subscribe to that symbol's depth
/// stream.
pub fn subscribe_frame(symbol: &str, id: u64) -> (r: String)
    ensures
        r@ == subscribe_frame_spec(symbol@, id),
{
    let mut out = "{\"method\":\"SUBSCRIBE\",\"params\":[\"".to_owned();
    out.append(symbol);
    out.append("@depth@100ms\"],\"id\":");
    push_u64(&mut out, id);
    out.append("}");
    proof {
        assert(out@ =~= subscribe_frame_spec(symbol@, id));
    }
    out
}

} // verus!
