//! Ingestion of raw feed messages: JSON decoding through serde_json, the
//! `price,side,quantity` change field, and the update of the book.
use vstd::prelude::*;
use vstd::string::*;
use crate::book::{ingest_spec, BookView, OrderBook, Side};
use crate::number::{parse_price, parse_quantity, price_of, quantity_of};

verus! {

#[verifier::external_type_specification]
#[verifier::external_body]
pub struct ExValue(serde_json::Value);

/// The value serde_json reads from `text`, if it accepts it as one JSON
/// document.
pub uninterp spec fn json_of(text: Seq<char>) -> Option<serde_json::Value>;

/// The member of a JSON object under `key`; `None` for a missing key or a
/// value that is not an object.
pub uninterp spec fn member_of(v: serde_json::Value, key: Seq<char>) -> Option<serde_json::Value>;

/// The text of a JSON string value; `None` for any other kind of value.
pub uninterp spec fn str_of(v: serde_json::Value) -> Option<Seq<char>>;

/// Relies on serde_json::from_str::<Value>: the value read from the text,
/// which depends on the text alone, or an error.
#[verifier::external_body]
fn parse_json(text: &str) -> (r: Option<serde_json::Value>)
    ensures
        r == json_of(text@),
{
    serde_json::from_str(text).ok()
}

/// Relies on serde_json::Value::get with a string key: the member of an
/// object under that key, if any.
#[verifier::external_body]
fn member<'a>(v: &'a serde_json::Value, key: &str) -> (r: Option<&'a serde_json::Value>)
    ensures
        match r {
            Some(m) => member_of(*v, key@) == Some(*m),
            None => member_of(*v, key@) is None,
        },
{
    v.get(key)
}

/// Relies on serde_json::Value::as_str: the text of a JSON string value.
pub assume_specification[ serde_json::Value::as_str ](v: &serde_json::Value) -> (r: Option<&str>)
    ensures
        match r {
            Some(t) => str_of(*v) == Some(t@),
            None => str_of(*v) is None,
        },
;

/// The text of the string member `key` of a JSON value.
pub open spec fn string_member(v: serde_json::Value, key: Seq<char>) -> Option<Seq<char>> {
    match member_of(v, key) {
        Some(m) => str_of(m),
        None => None,
    }
}

pub open spec fn type_key() -> Seq<char> {
    seq!['t', 'y', 'p', 'e']
}

pub open spec fn data_key() -> Seq<char> {
    seq!['d', 'a', 't', 'a']
}

pub open spec fn change_key() -> Seq<char> {
    seq!['c', 'h', 'a', 'n', 'g', 'e']
}

pub open spec fn token_key() -> Seq<char> {
    seq!['t', 'o', 'k', 'e', 'n']
}

/// The string member `type` of the message `text`.
pub open spec fn type_member(text: Seq<char>) -> Option<Seq<char>> {
    match json_of(text) {
        Some(v) => string_member(v, type_key()),
        None => None,
    }
}

/// The string member at `data.key` of the JSON text `text`.
pub open spec fn data_member(text: Seq<char>, key: Seq<char>) -> Option<Seq<char>> {
    match json_of(text) {
        Some(v) => match member_of(v, data_key()) {
            Some(d) => string_member(d, key),
            None => None,
        },
        None => None,
    }
}

/// The string member `data.change` of the message `text`.
pub open spec fn change_member(text: Seq<char>) -> Option<Seq<char>> {
    data_member(text, change_key())
}

/// The string member `data.token` of the credential response `text`.
pub open spec fn token_member(text: Seq<char>) -> Option<Seq<char>> {
    data_member(text, token_key())
}

/// The text of the string member `key` of `v`.
fn string_member_of<'a>(v: &'a serde_json::Value, key: &str) -> (r: Option<&'a str>)
    ensures
        text_view(r) == string_member(*v, key@),
{
    match member(v, key) {
        Some(m) => m.as_str(),
        None => None,
    }
}

/// The text of the string member `data.key` of `v`.
fn data_member_of<'a>(v: &'a serde_json::Value, key: &str) -> (r: Option<&'a str>)
    ensures
        text_view(r) == match member_of(*v, data_key()) {
            Some(d) => string_member(d, key@),
            None => None,
        },
{
    proof {
        reveal_strlit("data");
        assert("data"@ =~= data_key());
    }
    match member(v, "data") {
        Some(d) => string_member_of(d, key),
        None => None,
    }
}

/// One decoded delta.
#[derive(PartialEq, Eq, Structural, Clone, Copy, Debug)]
pub struct Delta {
    pub price: u64,
    pub side: Side,
    pub quantity: i64,
}

/// `s` splits at `a` and `b`, its only commas, into three fields.
pub open spec fn split_at_commas(s: Seq<char>, a: int, b: int) -> bool {
    &&& 0 <= a < b < s.len()
    &&& s[a] == ','
    &&& s[b] == ','
    &&& forall|j: int| 0 <= j < s.len() && j != a && j != b ==> #[trigger] s[j] != ','
}

/// The side named by a side tag, case-sensitive.
pub open spec fn side_of(s: Seq<char>) -> Option<Side> {
    if s == seq!['b', 'u', 'y'] {
        Some(Side::Buy)
    } else if s == seq!['s', 'e', 'l', 'l'] {
        Some(Side::Sell)
    } else {
        None
    }
}

/// The delta written by a change field `price,side,quantity`, if it has
/// exactly three fields and each is well formed.
pub open spec fn delta_of(s: Seq<char>) -> Option<Delta> {
    if exists|a: int, b: int| split_at_commas(s, a, b) {
        let (a, b) = choose|a: int, b: int| split_at_commas(s, a, b);
        match (price_of(s.take(a)), side_of(s.subrange(a + 1, b)), quantity_of(s.skip(b + 1))) {
            (Some(price), Some(side), Some(quantity)) => Some(
                Delta { price, side, quantity },
            ),
            _ => None,
        }
    } else {
        None
    }
}

/// A book after an optional delta.
pub open spec fn apply_spec(b: BookView, d: Option<Delta>) -> BookView {
    match d {
        Some(d) => ingest_spec(b, d.price, d.side, d.quantity),
        None => b,
    }
}

/// The characters of an optional text.
pub open spec fn text_view(t: Option<&str>) -> Option<Seq<char>> {
    match t {
        Some(t) => Some(t@),
        None => None,
    }
}

/// The type tag of a keepalive acknowledgement.
pub open spec fn pong_tag() -> Seq<char> {
    seq!['p', 'o', 'n', 'g']
}

/// A book after a message whose `type` member is `kind` and whose
/// `data.change` member is `change`: an acknowledgement leaves it as it was,
/// and so does a message without a change field.
pub open spec fn message_spec(b: BookView, kind: Option<Seq<char>>, change: Option<Seq<char>>) -> BookView {
    if kind == Some(pong_tag()) {
        b
    } else {
        match change {
            Some(c) => apply_spec(b, delta_of(c)),
            None => b,
        }
    }
}

/// The split of a change field is unique.
pub proof fn lemma_split_unique(s: Seq<char>, a: int, b: int, c: int, d: int)
    requires
        split_at_commas(s, a, b),
        split_at_commas(s, c, d),
    ensures
        a == c && b == d,
{
    assert(s[c] == ',' && s[d] == ',');
    assert(s[a] == ',' && s[b] == ',');
}

/// The characters of `s`.
fn chars_of(s: &str) -> (r: Vec<char>)
    ensures
        r@ == s@,
{
    let n = s.unicode_len();
    let mut r: Vec<char> = Vec::new();
    let mut i: usize = 0;
    while i < n
        invariant
            n == s@.len(),
            i <= n,
            r@ == s@.take(i as int),
        decreases n - i,
    {
        r.push(s.get_char(i));
        assert(s@.take(i + 1) =~= s@.take(i as int).push(s@[i as int]));
        i = i + 1;
    }
    assert(s@.take(n as int) =~= s@);
    r
}

/// Whether `s` is the acknowledgement tag.
fn is_pong(s: &str) -> (r: bool)
    ensures
        r == (s@ == pong_tag()),
{
    if s.unicode_len() != 4 {
        return false;
    }
    let r = s.get_char(0) == 'p' && s.get_char(1) == 'o' && s.get_char(2) == 'n' && s.get_char(3)
        == 'g';
    if r {
        assert(s@ =~= pong_tag());
    }
    r
}

/// The side named by `s[lo..hi]`.
fn parse_side(s: &Vec<char>, lo: usize, hi: usize) -> (r: Option<Side>)
    requires
        lo <= hi <= s@.len(),
    ensures
        r == side_of(s@.subrange(lo as int, hi as int)),
{
    let ghost t = s@.subrange(lo as int, hi as int);
    if hi - lo == 3 && s[lo] == 'b' && s[lo + 1] == 'u' && s[lo + 2] == 'y' {
        assert(t =~= seq!['b', 'u', 'y']);
        Some(Side::Buy)
    } else if hi - lo == 4 && s[lo] == 's' && s[lo + 1] == 'e' && s[lo + 2] == 'l' && s[lo + 3]
        == 'l' {
        assert(t =~= seq!['s', 'e', 'l', 'l']);
        assert(seq!['b', 'u', 'y'].len() == 3);
        Some(Side::Sell)
    } else {
        proof {
            if t == seq!['b', 'u', 'y'] {
                assert(t.len() == 3 && t[0] == 'b' && t[1] == 'u' && t[2] == 'y');
                assert(t[0] == s@[lo as int] && t[1] == s@[lo + 1] && t[2] == s@[lo + 2]);
            }
            if t == seq!['s', 'e', 'l', 'l'] {
                assert(t.len() == 4 && t[0] == 's' && t[1] == 'e' && t[2] == 'l' && t[3] == 'l');
                assert(t[0] == s@[lo as int] && t[1] == s@[lo + 1] && t[2] == s@[lo + 2] && t[3]
                    == s@[lo + 3]);
            }
        }
        None
    }
}

/// Decodes a change field `price,side,quantity`: `None` unless it holds
/// exactly three fields, a price, `buy` or `sell`, and an integer. The price
/// is read exactly, in any form of a finite non-negative real number (sign,
/// point, exponent), and kept as a whole number of ticks: a price finer than
/// a tick, or too large for u64 ticks, counts as malformed rather than being
/// rounded. An unparseable number and an unknown side tag are malformed too.
pub fn parse_change(change: &str) -> (r: Option<Delta>)
    ensures
        r == delta_of(change@),
{
    let s = chars_of(change);
    let n = s.len();
    let mut count: usize = 0;
    let mut a: usize = 0;
    let mut b: usize = 0;
    let mut i: usize = 0;
    while i < n
        invariant
            n == s@.len(),
            s@ == change@,
            i <= n,
            count <= 2,
            count == 0 ==> forall|j: int| 0 <= j < i ==> #[trigger] s@[j] != ',',
            count == 1 ==> a < i && s@[a as int] == ',' && forall|j: int|
                0 <= j < i && j != a ==> #[trigger] s@[j] != ',',
            count == 2 ==> a < b < i && s@[a as int] == ',' && s@[b as int] == ',' && forall|
                j: int,
            |
                0 <= j < i && j != a && j != b ==> #[trigger] s@[j] != ',',
        decreases n - i,
    {
        if s[i] == ',' {
            if count == 0 {
                a = i;
                count = 1;
            } else if count == 1 {
                b = i;
                count = 2;
            } else {
                assert forall|x: int, y: int| !split_at_commas(s@, x, y) by {
                    if split_at_commas(s@, x, y) {
                        assert(s@[a as int] == ',' && s@[b as int] == ',' && s@[i as int] == ',');
                    }
                }
                return None;
            }
        }
        i = i + 1;
    }
    if count != 2 {
        assert forall|x: int, y: int| !split_at_commas(s@, x, y) by {
            if split_at_commas(s@, x, y) {
                assert(s@[x] == ',' && s@[y] == ',');
            }
        }
        return None;
    }
    assert(split_at_commas(s@, a as int, b as int));
    proof {
        let (x, y) = choose|x: int, y: int| split_at_commas(s@, x, y);
        lemma_split_unique(s@, a as int, b as int, x, y);
    }
    assert(s@.subrange(0, a as int) =~= s@.take(a as int));
    assert(s@.subrange(b + 1, n as int) =~= s@.skip(b + 1));
    let price = parse_price(&s, 0, a);
    let side = parse_side(&s, a + 1, b);
    let quantity = parse_quantity(&s, b + 1, n);
    match (price, side, quantity) {
        (Some(price), Some(side), Some(quantity)) => Some(Delta { price, side, quantity }),
        _ => None,
    }
}

impl OrderBook {
    /// Applies the delta written by a change field; a malformed one leaves
    /// the book as it was.
    pub fn apply_change(&mut self, change: &str)
        requires
            old(self).wf(),
        ensures
            final(self).wf(),
            final(self)@ == apply_spec(old(self)@, delta_of(change@)),
    {
        match parse_change(change) {
            Some(d) => self.ingest(d.price, d.side, d.quantity),
            None => {},
        }
    }

    /// Applies a message given its `type` member and its `data.change`
    /// member, where they are strings.
    pub fn apply_fields(&mut self, kind: Option<&str>, change: Option<&str>)
        requires
            old(self).wf(),
        ensures
            final(self).wf(),
            final(self)@ == message_spec(old(self)@, text_view(kind), text_view(change)),
    {
        match kind {
            Some(k) => if is_pong(k) {
                return ;
            },
            None => {},
        }
        match change {
            Some(c) => self.apply_change(c),
            None => {},
        }
    }

    /// Applies one raw message of the feed: its string members `type` and
    /// `data.change` go to `apply_fields`. Text that is not JSON leaves the
    /// book as it was.
    pub fn process_message(&mut self, message: &str)
        requires
            old(self).wf(),
        ensures
            final(self).wf(),
            json_of(message@) is None ==> final(self)@ == old(self)@,
            final(self)@ == message_spec(old(self)@, type_member(message@), change_member(message@)),
    {
        let v = match parse_json(message) {
            Some(v) => v,
            None => return ,
        };
        proof {
            reveal_strlit("type");
            reveal_strlit("change");
            assert("type"@ =~= type_key());
            assert("change"@ =~= change_key());
        }
        let kind = string_member_of(&v, "type");
        let change = data_member_of(&v, "change");
        self.apply_fields(kind, change);
    }
}

/// Why no streaming token could be read from a credential response.
#[derive(PartialEq, Eq, Structural, Clone, Copy, Debug)]
pub enum TokenError {
    /// The body is not JSON.
    InvalidJson,
    /// The body has no string member `data.token`.
    MissingToken,
}

/// Reads the streaming token, the string member `data.token`, from the body
/// of the credential response.
pub fn token_from_response(body: &str) -> (r: Result<String, TokenError>)
    ensures
        match r {
            Ok(t) => token_member(body@) == Some(t@),
            Err(TokenError::InvalidJson) => json_of(body@) is None,
            Err(TokenError::MissingToken) => json_of(body@) is Some && token_member(body@) is None,
        },
{
    let v = match parse_json(body) {
        Some(v) => v,
        None => return Err(TokenError::InvalidJson),
    };
    proof {
        reveal_strlit("token");
        assert("token"@ =~= token_key());
    }
    match data_member_of(&v, "token") {
        Some(t) => Ok(t.to_owned()),
        None => Err(TokenError::MissingToken),
    }
}

} // verus!
