//! Arguments as JSON, and the lists of bytes among them.

use crate::control::{self, ArgValue, ItemModel, ListItem, ValueModel};
use crate::text;
use vstd::prelude::*;

verus! {

/// A text as JSON writes it.
pub uninterp spec fn quoted(text: Seq<char>) -> Seq<char>;

/// Writes a `serde_json::Value` made of a text; the JSON is named by `quoted`.
#[verifier::external_body]
fn quote(text: &str) -> (json: String)
    ensures
        json@ == quoted(text@),
{
    serde_json::Value::from(text).to_string()
}

/// A number as JSON writes it.
pub open spec fn number_json(n: u64) -> Seq<char> {
    text::dec(n as nat)
}

/// An item of a list as JSON writes it.
pub open spec fn item_json(item: ItemModel) -> Seq<char> {
    match item {
        ItemModel::UInt(n) => number_json(n),
        ItemModel::Other(json) => json,
    }
}

/// The first `count` items of a list as JSON writes them, each behind the one before it.
pub open spec fn items_json(items: Seq<ItemModel>, count: nat) -> Seq<char>
    decreases count,
{
    if count == 0 {
        Seq::empty()
    } else if count == 1 {
        item_json(items[0])
    } else {
        items_json(items, (count - 1) as nat) + ","@ + item_json(items[count - 1])
    }
}

/// A list as JSON writes it.
pub open spec fn list_json(items: Seq<ItemModel>) -> Seq<char> {
    "["@ + items_json(items, items.len()) + "]"@
}

/// An argument as JSON writes it.
pub open spec fn value_json(value: ValueModel) -> Seq<char> {
    match value {
        ValueModel::UInt(n) => number_json(n),
        ValueModel::Text(text) => quoted(text),
        ValueModel::List(items) => list_json(items),
        ValueModel::Other(json) => json,
    }
}

/// The items of a list of numbers.
pub open spec fn number_items(numbers: Seq<u64>) -> Seq<ItemModel> {
    numbers.map_values(|n: u64| ItemModel::UInt(n))
}

/// Whether each of the numbers is that of a byte.
pub open spec fn all_bytes(numbers: Seq<u64>) -> bool {
    forall|i: int| 0 <= i < numbers.len() ==> #[trigger] numbers[i] <= 255
}

/// The numbers as bytes.
pub open spec fn as_bytes(numbers: Seq<u64>) -> Seq<u8> {
    numbers.map_values(|n: u64| n as u8)
}

/// What JSON holds, read as a list of bytes, or the complaint about it.
pub uninterp spec fn byte_list_read(json: Seq<char>) -> Result<Seq<u8>, Seq<char>>;

/// Calls `serde_json::from_str` for a value, and `serde_json::from_value` for its bytes; what
/// comes of it is named by `byte_list_read`.
///
/// Claimed besides: a list of numbers gives those numbers, if each of them is that of a byte,
/// and is refused otherwise; and a number or a text alone is refused.
#[verifier::external_body]
fn read_byte_list(json: &str) -> (result: Result<Vec<u8>, String>)
    ensures
        control::holds(result, byte_list_read(json@)),
        forall|numbers: Seq<u64>|
            json@ == #[trigger] list_json(number_items(numbers)) ==> match result {
                Ok(bytes) => all_bytes(numbers) && bytes@ == as_bytes(numbers),
                Err(_) => !all_bytes(numbers),
            },
        forall|n: u64| json@ == #[trigger] number_json(n) ==> result is Err,
        forall|text: Seq<char>| json@ == #[trigger] quoted(text) ==> result is Err,
{
    let value = serde_json::from_str::<serde_json::Value>(json);
    value.and_then(serde_json::from_value::<Vec<u8>>).map_err(|error| error.to_string())
}

/// Whether each of the items is a number.
pub open spec fn all_numbers(items: Seq<ItemModel>) -> bool {
    forall|i: int| 0 <= i < items.len() ==> (#[trigger] items[i]) is UInt
}

/// The items that are numbers.
pub open spec fn numbers_of(items: Seq<ItemModel>) -> Seq<u64> {
    items.map_values(|item: ItemModel| item->UInt_0)
}

/// The bytes that an argument lists, or the complaint about it: a list of numbers, each of them
/// that of a byte. A list with other items, and a value that is neither number nor text nor
/// list, are what `byte_list_read` makes of them, and so are the words of every complaint.
pub open spec fn listed_bytes(value: ValueModel) -> Result<Seq<u8>, Seq<char>> {
    let read = byte_list_read(value_json(value));
    match value {
        ValueModel::UInt(_) | ValueModel::Text(_) => Err(read->Err_0),
        ValueModel::List(items) if all_numbers(items) => if all_bytes(numbers_of(items)) {
            Ok(as_bytes(numbers_of(items)))
        } else {
            Err(read->Err_0)
        },
        _ => read,
    }
}

/// An item of a list as JSON writes it.
fn to_item_json(item: &ListItem) -> (json: String)
    ensures
        json@ == item_json(item@),
{
    match item {
        ListItem::UInt(n) => text::to_dec(*n),
        ListItem::Other(json) => json.clone(),
    }
}

/// A list as JSON writes it.
fn to_list_json(items: &Vec<ListItem>) -> (json: String)
    ensures
        json@ == list_json(control::items_of(items@)),
{
    let ghost models = control::items_of(items@);
    let mut inner = "".to_owned();
    let mut next: usize = 0;
    proof {
        reveal_strlit("");
        assert(inner@ == Seq::<char>::empty());
    }
    while next < items.len()
        invariant
            next <= items@.len(),
            models == control::items_of(items@),
            inner@ == items_json(models, next as nat),
        decreases items@.len() - next,
    {
        if next > 0 {
            inner.append(",");
        }
        inner.append(to_item_json(&items[next]).as_str());
        assert(models[next as int] == items@[next as int]@);
        assert(next == 0 ==> inner@ == item_json(models[0]));
        next = next + 1;
    }
    "[".to_owned().concat(inner.as_str()).concat("]")
}

/// An argument as JSON writes it.
pub fn to_json(value: &ArgValue) -> (json: String)
    ensures
        json@ == value_json(value@),
{
    match value {
        ArgValue::UInt(n) => text::to_dec(*n),
        ArgValue::Text(text) => quote(text.as_str()),
        ArgValue::List(items) => to_list_json(items),
        ArgValue::Other(json) => json.clone(),
    }
}

/// The bytes that an argument lists.
pub fn read_listed_bytes(value: &ArgValue) -> (result: Result<Vec<u8>, String>)
    ensures
        control::holds(result, listed_bytes(value@)),
{
    let json = to_json(value);
    let result = read_byte_list(json.as_str());
    proof {
        if let ValueModel::List(items) = value@ {
            if all_numbers(items) {
                assert(number_items(numbers_of(items)) == items);
            }
        }
    }
    result
}

/// JSON writes numbers in decimal, texts in quotes, and anything else as it came.
pub proof fn law_values_as_json(n: u64, text: Seq<char>)
    ensures
        value_json(ValueModel::UInt(n)) == text::dec(n as nat),
        value_json(ValueModel::Text(text)) == quoted(text),
        value_json(ValueModel::Other(text)) == text,
        item_json(ItemModel::UInt(n)) == text::dec(n as nat),
        item_json(ItemModel::Other(text)) == text,
{
}

/// JSON writes a list in square brackets, its items in their order with commas between them.
pub proof fn law_lists_as_json(items: Seq<ItemModel>, next: ItemModel)
    ensures
        value_json(ValueModel::List(Seq::empty())) == "[]"@,
        value_json(ValueModel::List(seq![next])) == "["@ + item_json(next) + "]"@,
        items.len() > 0 ==> value_json(ValueModel::List(items.push(next))) == value_json(
            ValueModel::List(items),
        ).drop_last() + ","@ + item_json(next) + "]"@,
{
    reveal_strlit("[]");
    reveal_strlit("[");
    reveal_strlit("]");
    assert("["@ + Seq::<char>::empty() + "]"@ =~= "[]"@);
    if items.len() > 0 {
        lemma_items_alike(items, items.push(next), items.len());
        let inner = items_json(items, items.len());
        assert(list_json(items).drop_last() =~= "["@ + inner);
        assert("["@ + (inner + ","@ + item_json(next)) + "]"@ =~= "["@ + inner + ","@ + item_json(
            next,
        ) + "]"@);
    }
}

/// The first items of two lists are written alike if they are alike.
proof fn lemma_items_alike(one: Seq<ItemModel>, two: Seq<ItemModel>, count: nat)
    requires
        count <= one.len(),
        count <= two.len(),
        forall|i: int| 0 <= i < count ==> one[i] == two[i],
    ensures
        items_json(one, count) == items_json(two, count),
    decreases count,
{
    if count > 1 {
        lemma_items_alike(one, two, (count - 1) as nat);
    }
}

/// A list of bytes is read as these bytes; a list with a larger number, a number alone and a text
/// alone are refused.
pub proof fn law_listed_bytes(bytes: Seq<u8>, numbers: Seq<u64>, at: int, n: u64, text: Seq<char>)
    ensures
        listed_bytes(ValueModel::List(bytes.map_values(|b: u8| ItemModel::UInt(b as u64)))) == Ok::<
            Seq<u8>,
            Seq<char>,
        >(bytes),
        0 <= at < numbers.len() && numbers[at] > 255 ==> listed_bytes(
            ValueModel::List(numbers.map_values(|n: u64| ItemModel::UInt(n))),
        ) is Err,
        listed_bytes(ValueModel::UInt(n)) is Err,
        listed_bytes(ValueModel::Text(text)) is Err,
{
    let items = bytes.map_values(|b: u8| ItemModel::UInt(b as u64));
    assert(as_bytes(numbers_of(items)) =~= bytes);
    let others = numbers.map_values(|n: u64| ItemModel::UInt(n));
    assert(numbers_of(others) =~= numbers);
}

} // verus!
