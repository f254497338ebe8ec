//! Properties of the book engine that hold of every book and every delta.
use vstd::prelude::*;
use crate::book::{ingest_spec, BookView, Side};
use crate::message::{change_member, json_of, message_spec, pong_tag, split_at_commas, type_member};

verus! {

/// Removing a price that the side does not hold leaves the book as it was.
pub proof fn law_remove_absent(b: BookView, price: u64, side: Side)
    requires
        side == Side::Buy ==> !b.bids.contains_key(price),
        side == Side::Sell ==> !b.asks.contains_key(price),
    ensures
        ingest_spec(b, price, side, 0) == b,
{
    match side {
        Side::Buy => assert(b.bids.remove(price) =~= b.bids),
        Side::Sell => assert(b.asks.remove(price) =~= b.asks),
    }
}

/// A later delta at a price replaces the quantity of an earlier one rather
/// than adding to it: after both, the side holds the later quantity alone at
/// that price, as if the earlier delta had not come.
pub proof fn law_overwrite(b: BookView, price: u64, side: Side, first: i64, second: i64)
    requires
        second != 0,
    ensures
        ingest_spec(ingest_spec(b, price, side, first), price, side, second) == ingest_spec(
            b,
            price,
            side,
            second,
        ),
        side == Side::Buy ==> ingest_spec(
            ingest_spec(b, price, side, first),
            price,
            side,
            second,
        ).bids[price] == second,
        side == Side::Sell ==> ingest_spec(
            ingest_spec(b, price, side, first),
            price,
            side,
            second,
        ).asks[price] == second,
{
    assert(b.bids.remove(price).insert(price, second) =~= b.bids.insert(price, second));
    assert(b.bids.insert(price, first).insert(price, second) =~= b.bids.insert(price, second));
    assert(b.asks.remove(price).insert(price, second) =~= b.asks.insert(price, second));
    assert(b.asks.insert(price, first).insert(price, second) =~= b.asks.insert(price, second));
}

/// A delta on one side never touches the other side, at any price.
pub proof fn law_side_independence(b: BookView, price: u64, quantity: i64)
    ensures
        ingest_spec(b, price, Side::Buy, quantity).asks == b.asks,
        ingest_spec(b, price, Side::Sell, quantity).bids == b.bids,
{
}

/// The number of comma-separated fields of a text.
pub open spec fn field_count(s: Seq<char>) -> nat
    decreases s.len(),
{
    if s.len() == 0 {
        1
    } else {
        field_count(s.drop_last()) + if s.last() == ',' {
            1nat
        } else {
            0nat
        }
    }
}

/// A text split at two commas, its only ones, counts the commas of each
/// prefix.
proof fn lemma_prefix_fields(s: Seq<char>, a: int, b: int, i: int)
    requires
        split_at_commas(s, a, b),
        0 <= i <= s.len(),
    ensures
        field_count(s.take(i)) == 1 + (if a < i {
            1int
        } else {
            0int
        }) + (if b < i {
            1int
        } else {
            0int
        }),
    decreases i,
{
    if i > 0 {
        lemma_prefix_fields(s, a, b, i - 1);
        assert(s.take(i).drop_last() =~= s.take(i - 1));
    }
}

/// A change field that splits into three fields has exactly three.
pub proof fn lemma_split_has_three_fields(s: Seq<char>, a: int, b: int)
    requires
        split_at_commas(s, a, b),
    ensures
        field_count(s) == 3,
{
    lemma_prefix_fields(s, a, b, s.len() as int);
    assert(s.take(s.len() as int) =~= s);
}

/// A message without a change field, or whose change field does not hold
/// exactly three comma-separated fields, leaves the book as it was.
pub proof fn law_malformed_change(b: BookView, kind: Option<Seq<char>>, change: Seq<char>)
    ensures
        message_spec(b, kind, None) == b,
        field_count(change) != 3 ==> message_spec(b, kind, Some(change)) == b,
{
    if field_count(change) != 3 {
        assert forall|x: int, y: int| !split_at_commas(change, x, y) by {
            if split_at_commas(change, x, y) {
                lemma_split_has_three_fields(change, x, y);
            }
        }
    }
}

/// A keepalive acknowledgement never changes the book, whatever else it holds.
pub proof fn law_pong_skip(b: BookView, change: Option<Seq<char>>)
    ensures
        message_spec(b, Some(pong_tag()), change) == b,
{
}

/// A raw message whose `type` member is the acknowledgement tag never changes
/// the book, whatever its change field holds.
pub proof fn law_pong_message(b: BookView, text: Seq<char>)
    requires
        type_member(text) == Some(pong_tag()),
    ensures
        message_spec(b, type_member(text), change_member(text)) == b,
{
}

/// A raw message that is not JSON, that has no string member `data.change`,
/// or whose change field does not hold exactly three fields, leaves the book
/// as it was.
pub proof fn law_malformed_message(b: BookView, text: Seq<char>)
    ensures
        json_of(text) is None ==> message_spec(b, type_member(text), change_member(text)) == b,
        change_member(text) is None ==> message_spec(b, type_member(text), change_member(text))
            == b,
        change_member(text) matches Some(c) && field_count(c) != 3 ==> message_spec(
            b,
            type_member(text),
            change_member(text),
        ) == b,
{
    if let Some(c) = change_member(text) {
        law_malformed_change(b, type_member(text), c);
    }
}

} // verus!
