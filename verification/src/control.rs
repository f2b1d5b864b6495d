//! Requests that come from outside, their arguments, and the responses to them.

use crate::number;
use crate::text;
use crate::vm::{ResetMemoryPolicy, VmDump};
use vstd::prelude::*;

verus! {

/// An item of a list: a number that is not negative, or anything else, as JSON writes it.
#[derive(Debug)]
pub enum ListItem {
    UInt(u64),
    Other(String),
}

/// What `ListItem` says.
#[verifier::ext_equal]
pub ghost enum ItemModel {
    UInt(u64),
    Other(Seq<char>),
}

impl View for ListItem {
    type V = ItemModel;

    open spec fn view(&self) -> ItemModel {
        match *self {
            ListItem::UInt(n) => ItemModel::UInt(n),
            ListItem::Other(json) => ItemModel::Other(json@),
        }
    }
}

/// The views of the items of a list.
pub open spec fn items_of(items: Seq<ListItem>) -> Seq<ItemModel> {
    items.map_values(|item: ListItem| item@)
}

/// The value of an argument: a number that is not negative, a text, a list, or anything else, as
/// JSON writes it.
#[derive(Debug)]
pub enum ArgValue {
    UInt(u64),
    Text(String),
    List(Vec<ListItem>),
    Other(String),
}

/// What `ArgValue` says.
#[verifier::ext_equal]
pub ghost enum ValueModel {
    UInt(u64),
    Text(Seq<char>),
    List(Seq<ItemModel>),
    Other(Seq<char>),
}

impl View for ArgValue {
    type V = ValueModel;

    open spec fn view(&self) -> ValueModel {
        match *self {
            ArgValue::UInt(n) => ValueModel::UInt(n),
            ArgValue::Text(text) => ValueModel::Text(text@),
            ArgValue::List(items) => ValueModel::List(items_of(items@)),
            ArgValue::Other(json) => ValueModel::Other(json@),
        }
    }
}

/// The arguments of a request, by name.
#[derive(Debug)]
pub struct Arguments {
    pub entries: Vec<(String, ArgValue)>,
}

/// The argument called `key` among `entries`; the first one counts.
pub open spec fn argument(entries: Seq<(String, ArgValue)>, key: Seq<char>) -> Option<ValueModel>
    decreases entries.len(),
{
    if entries.len() == 0 {
        None
    } else if entries[0].0@ == key {
        Some(entries[0].1@)
    } else {
        argument(entries.skip(1), key)
    }
}

/// The argument called `key`, if there are arguments and it is among them.
pub open spec fn argument_of(args: Option<&Arguments>, key: Seq<char>) -> Option<ValueModel> {
    match args {
        Some(args) => argument(args.entries@, key),
        None => None,
    }
}

impl Arguments {
    /// The argument called `key`.
    pub fn get(&self, key: &str) -> (value: Option<&ArgValue>)
        ensures
            match value {
                Some(value) => argument(self.entries@, key@) == Some(value@),
                None => argument(self.entries@, key@) is None,
            },
    {
        let mut next: usize = 0;
        assert(self.entries@.skip(0) == self.entries@);
        while next < self.entries.len()
            invariant
                next <= self.entries@.len(),
                argument(self.entries@.skip(next as int), key@) == argument(self.entries@, key@),
            decreases self.entries@.len() - next,
        {
            let entry = &self.entries[next];
            if text::same(entry.0.as_str(), key) {
                return Some(&entry.1);
            }
            assert(self.entries@.skip(next as int).skip(1) == self.entries@.skip(next + 1));
            next = next + 1;
        }
        None
    }
}

/// A request.
#[derive(Debug)]
pub struct ControlRequest {
    pub id: Option<u64>,
    pub request_type: Option<String>,
    pub command: String,
    pub arguments: Option<Arguments>,
}

impl ControlRequest {
    /// The number of the request; zero if it has none.
    pub open spec fn number(&self) -> u64 {
        match self.id {
            Some(id) => id,
            None => 0,
        }
    }

    /// Whether the request says of itself that it is something else.
    pub open spec fn is_foreign(&self) -> bool {
        self.request_type matches Some(kind) && kind@ != "request"@
    }

    /// The number of the request; zero if it has none.
    pub fn request_id(&self) -> (id: u64)
        ensures
            id == self.number(),
    {
        match self.id {
            Some(id) => id,
            None => 0,
        }
    }

    /// Whether the request says of itself that it is something else.
    pub fn has_foreign_type(&self) -> (foreign: bool)
        ensures
            foreign == self.is_foreign(),
    {
        match &self.request_type {
            Some(kind) => !text::same(kind.as_str(), "request"),
            None => false,
        }
    }
}

/// The arguments of a request.
pub open spec fn args_of(req: ControlRequest) -> Option<&'static Arguments> {
    match req.arguments {
        Some(args) => Some(&args),
        None => None,
    }
}

/// The text about a machine without a program.
pub open spec fn halted_text() -> Seq<char> {
    "Program is halted or not loaded"@
}

/// A response: the number of the request twice, whether it succeeded, and what came of it.
#[derive(Debug)]
pub struct ControlResponse<B> {
    pub id: u64,
    pub seq: u64,
    pub success: bool,
    pub command: String,
    pub message: Option<String>,
    pub body: Option<B>,
}

impl<B> ControlResponse<B> {
    /// Whether this is the answer of success to the request `id` for `command`.
    pub open spec fn succeeds(&self, id: u64, command: Seq<char>) -> bool {
        self.id == id && self.seq == id && self.success && self.command@ == command && self.message
            is None
    }

    /// Whether this is the refusal, with `message`, of the request `id` for `command`.
    pub open spec fn refuses(&self, id: u64, command: Seq<char>, message: Seq<char>) -> bool {
        &&& self.id == id && self.seq == id && !self.success && self.command@ == command
        &&& self.message matches Some(text) && text@ == message
        &&& self.body is None
    }
}

/// An answer of success.
pub fn response<B>(id: u64, command: String, body: Option<B>) -> (answer: ControlResponse<B>)
    ensures
        answer.succeeds(id, command@),
        answer.body == body,
{
    ControlResponse { id, seq: id, success: true, command, message: None, body }
}

/// A refusal.
pub fn error_response<B>(id: u64, command: String, message: String) -> (answer: ControlResponse<B>)
    ensures
        answer.refuses(id, command@, message@),
{
    ControlResponse { id, seq: id, success: false, command, message: Some(message), body: None }
}

/// The text about a request that says of itself that it is something else.
pub open spec fn foreign_text() -> Seq<char> {
    "if provided, type must be 'request'"@
}

/// The text about a command that there is not.
pub open spec fn unsupported_text(command: Seq<char>) -> Seq<char> {
    "unsupported control command: "@ + command
}

/// The complaint about a text that is no number.
pub open spec fn number_text(raw: Seq<char>, key: Seq<char>, complaint: Seq<char>) -> Seq<char> {
    (if number::notation(raw).radix == 16 {
        "invalid hex value for "@
    } else {
        "invalid decimal value for "@
    }) + key + ": "@ + complaint
}

/// The number of 32 bits that the argument `key` stands for. Of a larger number the low bits
/// count.
pub open spec fn u32_value(args: Option<&Arguments>, key: Seq<char>, default: u32) -> Result<
    u32,
    Seq<char>,
> {
    match argument_of(args, key) {
        None => Ok(default),
        Some(ValueModel::UInt(n)) => Ok((n % 0x1_0000_0000) as u32),
        Some(ValueModel::Text(raw)) => match number::auto_u32(raw) {
            Ok(n) => Ok(n),
            Err(complaint) => Err(number_text(raw, key, complaint)),
        },
        Some(_) => Err("invalid value for "@ + key),
    }
}

/// The number of 64 bits that the argument `key` stands for.
pub open spec fn u64_value(args: Option<&Arguments>, key: Seq<char>, default: u64) -> Result<
    u64,
    Seq<char>,
> {
    match argument_of(args, key) {
        None => Ok(default),
        Some(ValueModel::UInt(n)) => Ok(n),
        Some(ValueModel::Text(raw)) => match number::auto_u64(raw) {
            Ok(n) => Ok(n),
            Err(complaint) => Err(number_text(raw, key, complaint)),
        },
        Some(_) => Err("invalid value for "@ + key),
    }
}

/// The text that the argument `key` is.
pub open spec fn string_value(args: Option<&Arguments>, key: Seq<char>) -> Result<
    Seq<char>,
    Seq<char>,
> {
    match (args, argument_of(args, key)) {
        (None, _) => Err("missing arguments"@),
        (Some(_), None) => Err("missing argument: "@ + key),
        (Some(_), Some(ValueModel::Text(text))) => Ok(text),
        (Some(_), Some(_)) => Err("argument "@ + key + " must be a string"@),
    }
}

/// Whether `result` is what `wanted` says.
pub open spec fn says<T>(result: Result<T, String>, wanted: Result<T, Seq<char>>) -> bool {
    match (result, wanted) {
        (Ok(value), Ok(model)) => value == model,
        (Err(complaint), Err(text)) => complaint@ == text,
        _ => false,
    }
}

fn number_complaint(hex: bool, key: &str, complaint: &str) -> (text: String)
    ensures
        text@ == (if hex {
            "invalid hex value for "@
        } else {
            "invalid decimal value for "@
        }) + key@ + ": "@ + complaint@,
{
    let front = if hex {
        "invalid hex value for "
    } else {
        "invalid decimal value for "
    };
    front.to_owned().concat(key).concat(": ").concat(complaint)
}

/// The number of 32 bits that the argument `key` stands for.
pub fn parse_u32_value(args: Option<&Arguments>, key: &str, default: u32) -> (result: Result<
    u32,
    String,
>)
    ensures
        says(result, u32_value(args, key@, default)),
{
    let Some(args) = args else {
        return Ok(default);
    };
    let Some(raw) = args.get(key) else {
        return Ok(default);
    };
    match raw {
        ArgValue::UInt(n) => Ok((*n % 0x1_0000_0000) as u32),
        ArgValue::Text(raw) => match number::read_auto_u32(raw.as_str()) {
            Ok(n) => Ok(n),
            Err((hex, complaint)) => Err(number_complaint(hex, key, complaint.as_str())),
        },
        _ => Err("invalid value for ".to_owned().concat(key)),
    }
}

/// The number of 64 bits that the argument `key` stands for.
pub fn parse_u64_value(args: Option<&Arguments>, key: &str, default: u64) -> (result: Result<
    u64,
    String,
>)
    ensures
        says(result, u64_value(args, key@, default)),
{
    let Some(args) = args else {
        return Ok(default);
    };
    let Some(raw) = args.get(key) else {
        return Ok(default);
    };
    match raw {
        ArgValue::UInt(n) => Ok(*n),
        ArgValue::Text(raw) => match number::read_auto_u64(raw.as_str()) {
            Ok(n) => Ok(n),
            Err((hex, complaint)) => Err(number_complaint(hex, key, complaint.as_str())),
        },
        _ => Err("invalid value for ".to_owned().concat(key)),
    }
}

/// The text that the argument `key` is.
pub fn parse_string_value(args: Option<&Arguments>, key: &str) -> (result: Result<String, String>)
    ensures
        match (result, string_value(args, key@)) {
            (Ok(value), Ok(text)) => value@ == text,
            (Err(complaint), Err(text)) => complaint@ == text,
            _ => false,
        },
{
    let Some(args) = args else {
        return Err("missing arguments".to_owned());
    };
    match args.get(key) {
        None => Err("missing argument: ".to_owned().concat(key)),
        Some(ArgValue::Text(text)) => Ok(text.clone()),
        Some(_) => Err("argument ".to_owned().concat(key).concat(" must be a string")),
    }
}

/// What a text in Base64 stands for, or the complaint about it.
pub uninterp spec fn base64_decoded(encoded: Seq<char>) -> Result<Seq<u8>, Seq<char>>;

/// Calls `base64`'s `STANDARD.decode`; the bytes, or the text of the complaint, are named by
/// `base64_decoded`.
#[verifier::external_body]
pub(crate) fn decode_base64(encoded: &str) -> (result: Result<Vec<u8>, String>)
    ensures
        match result {
            Ok(bytes) => base64_decoded(encoded@) == Ok::<Seq<u8>, Seq<char>>(bytes@),
            Err(complaint) => base64_decoded(encoded@) == Err::<Seq<u8>, Seq<char>>(complaint@),
        },
{
    let engine = base64::engine::general_purpose::STANDARD;
    base64::Engine::decode(&engine, encoded).map_err(|error| error.to_string())
}

/// Whether `result` holds what `wanted` says.
pub open spec fn holds(result: Result<Vec<u8>, String>, wanted: Result<Seq<u8>, Seq<char>>) -> bool {
    match (result, wanted) {
        (Ok(bytes), Ok(model)) => bytes@ == model,
        (Err(complaint), Err(text)) => complaint@ == text,
        _ => false,
    }
}

/// The bytes that a text in Base64 under `key` stands for, given what the text `decoded` to.
pub open spec fn base64_bytes(key: Seq<char>, decoded: Result<Seq<u8>, Seq<char>>) -> Result<
    Seq<u8>,
    Seq<char>,
> {
    match decoded {
        Ok(bytes) => Ok(bytes),
        Err(complaint) => Err("invalid base64 value for "@ + key + ": "@ + complaint),
    }
}

/// The bytes that a text in Base64 under `key` stands for, given what the text `decoded` to.
pub fn accept_base64(key: &str, decoded: Result<Vec<u8>, String>) -> (result: Result<
    Vec<u8>,
    String,
>)
    ensures
        match decoded {
            Ok(bytes) => holds(result, base64_bytes(key@, Ok(bytes@))),
            Err(complaint) => holds(result, base64_bytes(key@, Err(complaint@))),
        },
{
    match decoded {
        Ok(bytes) => Ok(bytes),
        Err(complaint) => Err(
            "invalid base64 value for ".to_owned().concat(key).concat(": ").concat(
                complaint.as_str(),
            ),
        ),
    }
}

/// The bytes that the argument `key` stands for in Base64.
pub fn parse_base64_bytes(args: Option<&Arguments>, key: &str) -> (result: Result<Vec<u8>, String>)
    ensures
        match string_value(args, key@) {
            Ok(encoded) => holds(result, base64_bytes(key@, base64_decoded(encoded))),
            Err(text) => holds(result, Err(text)),
        },
{
    match parse_string_value(args, key) {
        Ok(encoded) => accept_base64(key, decode_base64(encoded.as_str())),
        Err(complaint) => Err(complaint),
    }
}

/// The complaint about a list that is not one of bytes.
pub open spec fn not_bytes_text() -> Seq<char> {
    "argument bytes must be an array of integers"@
}

/// The first `count` items of a list as bytes; the first item that is none is the complaint.
pub open spec fn list_bytes(items: Seq<ItemModel>, count: nat) -> Result<Seq<u8>, Seq<char>>
    decreases count,
{
    if count == 0 {
        Ok(Seq::empty())
    } else {
        match (list_bytes(items, (count - 1) as nat), items[count - 1]) {
            (Err(complaint), _) => Err(complaint),
            (Ok(_), ItemModel::Other(_)) => Err(not_bytes_text()),
            (Ok(front), ItemModel::UInt(n)) => if n > 255 {
                Err("byte value "@ + text::dec(n as nat) + " is outside the range 0..=255"@)
            } else {
                Ok(front.push(n as u8))
            },
        }
    }
}

/// The bytes to write: a text in Base64, or else a list.
pub open spec fn write_bytes(args: Option<&Arguments>) -> Result<Seq<u8>, Seq<char>> {
    match (args, argument_of(args, "bytesBase64"@), argument_of(args, "bytes"@)) {
        (None, _, _) => Err("missing arguments"@),
        (Some(_), Some(ValueModel::Text(encoded)), _) => base64_bytes(
            "bytesBase64"@,
            base64_decoded(encoded),
        ),
        (Some(_), Some(_), _) => Err("argument bytesBase64 must be a string"@),
        (Some(_), None, None) => Err("missing argument: bytes or bytesBase64"@),
        (Some(_), None, Some(ValueModel::List(items))) => list_bytes(items, items.len()),
        (Some(_), None, Some(_)) => Err(not_bytes_text()),
    }
}

/// A complaint about an item is the complaint about all longer lists.
proof fn lemma_list_complaint_stays(items: Seq<ItemModel>, count: nat, longer: nat)
    requires
        count <= longer,
        list_bytes(items, count) is Err,
    ensures
        list_bytes(items, longer) == list_bytes(items, count),
    decreases longer,
{
    if count < longer {
        lemma_list_complaint_stays(items, count, (longer - 1) as nat);
    }
}

/// The items of a list as bytes.
pub fn parse_byte_list(items: &Vec<ListItem>) -> (result: Result<Vec<u8>, String>)
    ensures
        holds(result, list_bytes(items_of(items@), items@.len())),
{
    let ghost models = items_of(items@);
    let mut out: Vec<u8> = Vec::new();
    let mut next: usize = 0;
    while next < items.len()
        invariant
            next <= items@.len(),
            models == items_of(items@),
            list_bytes(models, next as nat) == Ok::<Seq<u8>, Seq<char>>(out@),
        decreases items@.len() - next,
    {
        assert(models[next as int] == items@[next as int]@);
        match &items[next] {
            ListItem::Other(_) => {
                proof {
                    lemma_list_complaint_stays(models, (next + 1) as nat, items@.len());
                }
                return Err("argument bytes must be an array of integers".to_owned());
            },
            ListItem::UInt(byte) => {
                if *byte > 255 {
                    proof {
                        lemma_list_complaint_stays(models, (next + 1) as nat, items@.len());
                    }
                    return Err(
                        "byte value ".to_owned().concat(text::to_dec(*byte).as_str()).concat(
                            " is outside the range 0..=255",
                        ),
                    );
                }
                out.push(*byte as u8);
            },
        }
        next = next + 1;
    }
    Ok(out)
}

/// The bytes to write: a text in Base64, or else a list.
pub fn parse_write_bytes(args: Option<&Arguments>) -> (result: Result<Vec<u8>, String>)
    ensures
        holds(result, write_bytes(args)),
{
    let Some(args) = args else {
        return Err("missing arguments".to_owned());
    };
    match args.get("bytesBase64") {
        Some(ArgValue::Text(encoded)) => {
            return accept_base64("bytesBase64", decode_base64(encoded.as_str()));
        },
        Some(_) => return Err("argument bytesBase64 must be a string".to_owned()),
        None => {},
    }
    match args.get("bytes") {
        None => Err("missing argument: bytes or bytesBase64".to_owned()),
        Some(ArgValue::List(items)) => parse_byte_list(items),
        Some(_) => Err("argument bytes must be an array of integers".to_owned()),
    }
}

/// What a reset is to do to the memory.
pub open spec fn reset_policy(args: Option<&Arguments>) -> Result<ResetMemoryPolicy, Seq<char>> {
    match argument_of(args, "policy"@) {
        None => Ok(ResetMemoryPolicy::Ignore),
        Some(ValueModel::Text(name)) => if name == "ignore"@ {
            Ok(ResetMemoryPolicy::Ignore)
        } else if name == "zero"@ {
            Ok(ResetMemoryPolicy::Zero)
        } else if name == "random"@ || name == "randomize"@ {
            Ok(ResetMemoryPolicy::Randomize)
        } else {
            Err("unsupported reset policy: "@ + name)
        },
        Some(_) => Err("argument policy must be a string"@),
    }
}

/// What a reset is to do to the memory.
pub fn parse_reset_policy(args: Option<&Arguments>) -> (result: Result<ResetMemoryPolicy, String>)
    ensures
        says(result, reset_policy(args)),
{
    let Some(args) = args else {
        return Ok(ResetMemoryPolicy::Ignore);
    };
    match args.get("policy") {
        None => Ok(ResetMemoryPolicy::Ignore),
        Some(ArgValue::Text(name)) => {
            let name = name.as_str();
            if text::same(name, "ignore") {
                Ok(ResetMemoryPolicy::Ignore)
            } else if text::same(name, "zero") {
                Ok(ResetMemoryPolicy::Zero)
            } else if text::same(name, "random") || text::same(name, "randomize") {
                Ok(ResetMemoryPolicy::Randomize)
            } else {
                Err("unsupported reset policy: ".to_owned().concat(name))
            }
        },
        Some(_) => Err("argument policy must be a string".to_owned()),
    }
}

/// What comes of the argument with a saved machine, given what reading it gave.
pub open spec fn dump_complaint(
    args: Option<&Arguments>,
    read: Result<VmDump, String>,
) -> Option<Seq<char>> {
    match (args, argument_of(args, "dump"@), read) {
        (None, _, _) => Some("missing arguments"@),
        (Some(_), None, _) => Some("missing argument: dump"@),
        (Some(_), Some(_), Err(complaint)) => Some("invalid dump payload: "@ + complaint@),
        (Some(_), Some(_), Ok(_)) => None,
    }
}

/// The saved machine among the arguments, given what reading the argument gave.
pub fn parse_dump_value(args: Option<&Arguments>, read: Result<VmDump, String>) -> (result: Result<
    VmDump,
    String,
>)
    ensures
        match result {
            Ok(dump) => dump_complaint(args, read) is None && read == Ok::<VmDump, String>(dump),
            Err(complaint) => dump_complaint(args, read) == Some(complaint@),
        },
{
    let Some(args) = args else {
        return Err("missing arguments".to_owned());
    };
    if args.get("dump").is_none() {
        return Err("missing argument: dump".to_owned());
    }
    match read {
        Ok(dump) => Ok(dump),
        Err(complaint) => Err("invalid dump payload: ".to_owned().concat(complaint.as_str())),
    }
}

/// The argument under a name is the first one of that name; without one there is none, and
/// without arguments neither.
pub proof fn law_arguments(entries: Seq<(String, ArgValue)>, key: Seq<char>, at: int)
    requires
        0 <= at <= entries.len(),
        forall|i: int| 0 <= i < at ==> (#[trigger] entries[i]).0@ != key,
        at < entries.len() ==> entries[at].0@ == key,
    ensures
        at < entries.len() ==> argument(entries, key) == Some(entries[at].1@),
        at == entries.len() ==> argument(entries, key) is None,
        argument_of(None, key) is None,
        forall|args: &Arguments| #[trigger]
            argument_of(Some(args), key) == argument(args.entries@, key),
    decreases entries.len(),
{
    if at > 0 {
        let rest = entries.skip(1);
        assert(entries[0].0@ != key);
        assert forall|i: int| 0 <= i < at - 1 implies (#[trigger] rest[i]).0@ != key by {
            assert(rest[i] == entries[i + 1]);
        }
        law_arguments(rest, key, at - 1);
    }
}

/// A number of 32 bits among the arguments: the default if it is not there; the low bits of a
/// number; and what a text reads as, in decimal or behind its prefix in hexadecimal. Of anything
/// else there is a complaint that names the argument.
pub proof fn law_short_numbers(args: Option<&Arguments>, key: Seq<char>, default: u32)
    ensures
        ({
            let found = argument_of(args, key);
            let value = u32_value(args, key, default);
            &&& found is None ==> value == Ok::<u32, Seq<char>>(default)
            &&& found matches Some(ValueModel::UInt(n)) ==> value is Ok && value->Ok_0 == n
                % 0x1_0000_0000
            &&& found matches Some(ValueModel::Text(raw)) ==> (number::auto_u32(raw) matches Ok(n)
                ==> value == Ok::<u32, Seq<char>>(n))
            &&& found matches Some(ValueModel::Text(raw)) ==> (number::auto_u32(raw) matches Err(
                complaint,
            ) ==> value == Err::<u32, Seq<char>>(
                (if raw.len() >= 2 && raw[0] == '0' && (raw[1] == 'x' || raw[1] == 'X') {
                    "invalid hex value for "@
                } else {
                    "invalid decimal value for "@
                }) + key + ": "@ + complaint,
            ))
            &&& found matches Some(ValueModel::List(_)) ==> value == Err::<u32, Seq<char>>(
                "invalid value for "@ + key,
            )
            &&& found matches Some(ValueModel::Other(_)) ==> value == Err::<u32, Seq<char>>(
                "invalid value for "@ + key,
            )
        }),
{
    reveal_strlit("0x");
    reveal_strlit("0X");
}

/// A number of 64 bits among the arguments: the default if it is not there; a number as it is; and
/// what a text reads as, in decimal or behind its prefix in hexadecimal. Of anything else there is
/// a complaint that names the argument.
pub proof fn law_long_numbers(args: Option<&Arguments>, key: Seq<char>, default: u64)
    ensures
        ({
            let found = argument_of(args, key);
            let value = u64_value(args, key, default);
            &&& found is None ==> value == Ok::<u64, Seq<char>>(default)
            &&& found matches Some(ValueModel::UInt(n)) ==> value == Ok::<u64, Seq<char>>(n)
            &&& found matches Some(ValueModel::Text(raw)) ==> (number::auto_u64(raw) matches Ok(n)
                ==> value == Ok::<u64, Seq<char>>(n))
            &&& found matches Some(ValueModel::Text(raw)) ==> (number::auto_u64(raw) matches Err(
                complaint,
            ) ==> value == Err::<u64, Seq<char>>(
                (if raw.len() >= 2 && raw[0] == '0' && (raw[1] == 'x' || raw[1] == 'X') {
                    "invalid hex value for "@
                } else {
                    "invalid decimal value for "@
                }) + key + ": "@ + complaint,
            ))
            &&& found matches Some(ValueModel::List(_)) ==> value == Err::<u64, Seq<char>>(
                "invalid value for "@ + key,
            )
            &&& found matches Some(ValueModel::Other(_)) ==> value == Err::<u64, Seq<char>>(
                "invalid value for "@ + key,
            )
        }),
{
    reveal_strlit("0x");
    reveal_strlit("0X");
}

/// A number that is written as a text among the arguments, in decimal or in hexadecimal, is taken
/// as that number, whatever the default is.
pub proof fn law_numbers_as_texts(args: Option<&Arguments>, key: Seq<char>, n: u32, other: u32)
    requires
        argument_of(args, key) == Some(ValueModel::Text(text::dec(n as nat))) || argument_of(
            args,
            key,
        ) == Some(ValueModel::Text("0x"@ + text::hex(n as nat))),
    ensures
        u32_value(args, key, other) == Ok::<u32, Seq<char>>(n),
        u64_value(args, key, other as u64) == Ok::<u64, Seq<char>>(n as u64),
{
    number::law_long_numbers_read_back(n as u64, 0);
    assert(text::hex_padded(n as nat, 0) == text::hex(n as nat));
    number::law_widths_agree(text::dec(n as nat));
    number::law_widths_agree("0x"@ + text::hex(n as nat));
}

/// A text among the arguments has to be there, and to be a text.
pub proof fn law_texts(args: Option<&Arguments>, key: Seq<char>)
    ensures
        ({
            let found = argument_of(args, key);
            let value = string_value(args, key);
            &&& args is None ==> value == Err::<Seq<char>, Seq<char>>("missing arguments"@)
            &&& args is Some && found is None ==> value == Err::<Seq<char>, Seq<char>>(
                "missing argument: "@ + key,
            )
            &&& found matches Some(ValueModel::Text(text)) ==> value == Ok::<Seq<char>, Seq<char>>(
                text,
            )
            &&& found is Some && !(found->0 is Text) ==> value == Err::<Seq<char>, Seq<char>>(
                "argument "@ + key + " must be a string"@,
            )
        }),
{
}

/// A text in Base64 stands for the bytes that it decodes to, and a complaint about it names the
/// argument.
pub proof fn law_base64(key: Seq<char>, bytes: Seq<u8>, complaint: Seq<char>)
    ensures
        base64_bytes(key, Ok(bytes)) == Ok::<Seq<u8>, Seq<char>>(bytes),
        base64_bytes(key, Err(complaint)) == Err::<Seq<u8>, Seq<char>>(
            "invalid base64 value for "@ + key + ": "@ + complaint,
        ),
{
}

/// A list of numbers below 256 stands for these bytes, in their order; the complaint about any
/// other list is about its first item that is no such number.
pub proof fn law_lists_of_bytes(items: Seq<ItemModel>, count: nat, bad: nat)
    requires
        bad <= count <= items.len(),
        forall|i: int|
            0 <= i < bad ==> (#[trigger] items[i] matches ItemModel::UInt(n) && n < 256),
        bad < count ==> match items[bad as int] {
            ItemModel::UInt(n) => n >= 256,
            ItemModel::Other(_) => true,
        },
    ensures
        bad == count ==> list_bytes(items, count) is Ok && list_bytes(items, count)->Ok_0.len()
            == count && forall|i: int|
            0 <= i < count ==> #[trigger] items[i] == ItemModel::UInt(
                list_bytes(items, count)->Ok_0[i] as u64,
            ),
        bad < count ==> list_bytes(items, count) == Err::<Seq<u8>, Seq<char>>(
            match items[bad as int] {
                ItemModel::UInt(n) => "byte value "@ + text::dec(n as nat)
                    + " is outside the range 0..=255"@,
                ItemModel::Other(_) => "argument bytes must be an array of integers"@,
            },
        ),
    decreases count,
{
    if bad < count {
        law_lists_of_bytes(items, bad, bad);
        lemma_list_complaint_stays(items, (bad + 1) as nat, count);
    } else if count > 0 {
        let front = (count - 1) as nat;
        law_lists_of_bytes(items, front, front);
        assert(items[front as int] is UInt);
        let before = list_bytes(items, front)->Ok_0;
        let after = list_bytes(items, count)->Ok_0;
        assert(after == before.push(items[front as int]->UInt_0 as u8));
        assert forall|i: int| 0 <= i < count implies #[trigger] items[i] == ItemModel::UInt(
            after[i] as u64,
        ) by {
            if i < front {
                assert(items[i] == ItemModel::UInt(before[i] as u64));
            }
        }
    }
}

/// The bytes to write come from the text in Base64 if there is one, and otherwise from the list;
/// a value of another kind is refused, and so is a request without either.
pub proof fn law_bytes_to_write(args: Option<&Arguments>)
    ensures
        ({
            let encoded = argument_of(args, "bytesBase64"@);
            let listed = argument_of(args, "bytes"@);
            let bytes = write_bytes(args);
            &&& args is None ==> bytes == Err::<Seq<u8>, Seq<char>>("missing arguments"@)
            &&& encoded matches Some(ValueModel::Text(text)) ==> (base64_decoded(text) matches Ok(
                decoded,
            ) ==> bytes == Ok::<Seq<u8>, Seq<char>>(decoded))
            &&& encoded matches Some(ValueModel::Text(text)) ==> (base64_decoded(text) matches Err(
                complaint,
            ) ==> bytes == Err::<Seq<u8>, Seq<char>>(
                "invalid base64 value for "@ + "bytesBase64"@ + ": "@ + complaint,
            ))
            &&& encoded is Some && !(encoded->0 is Text) ==> bytes == Err::<Seq<u8>, Seq<char>>(
                "argument bytesBase64 must be a string"@,
            )
            &&& args is Some && encoded is None && listed is None ==> bytes == Err::<
                Seq<u8>,
                Seq<char>,
            >("missing argument: bytes or bytesBase64"@)
            &&& encoded is None && listed is Some && listed->0 is List ==> bytes == list_bytes(
                listed->0->List_0,
                listed->0->List_0.len(),
            )
            &&& encoded is None && listed is Some && !(listed->0 is List) ==> bytes == Err::<
                Seq<u8>,
                Seq<char>,
            >("argument bytes must be an array of integers"@)
        }),
{
}

/// A reset leaves memory alone unless it is told otherwise, by one of the names there are.
pub proof fn law_reset_policies(args: Option<&Arguments>)
    ensures
        ({
            let found = argument_of(args, "policy"@);
            let policy = reset_policy(args);
            &&& found is None ==> policy == Ok::<ResetMemoryPolicy, Seq<char>>(
                ResetMemoryPolicy::Ignore,
            )
            &&& found == Some(ValueModel::Text("ignore"@)) ==> policy == Ok::<
                ResetMemoryPolicy,
                Seq<char>,
            >(ResetMemoryPolicy::Ignore)
            &&& found == Some(ValueModel::Text("zero"@)) ==> policy == Ok::<
                ResetMemoryPolicy,
                Seq<char>,
            >(ResetMemoryPolicy::Zero)
            &&& found == Some(ValueModel::Text("random"@)) ==> policy == Ok::<
                ResetMemoryPolicy,
                Seq<char>,
            >(ResetMemoryPolicy::Randomize)
            &&& found == Some(ValueModel::Text("randomize"@)) ==> policy == Ok::<
                ResetMemoryPolicy,
                Seq<char>,
            >(ResetMemoryPolicy::Randomize)
            &&& found matches Some(ValueModel::Text(name)) ==> (name != "ignore"@ && name
                != "zero"@ && name != "random"@ && name != "randomize"@ ==> policy == Err::<
                ResetMemoryPolicy,
                Seq<char>,
            >("unsupported reset policy: "@ + name))
            &&& found is Some && !(found->0 is Text) ==> policy == Err::<
                ResetMemoryPolicy,
                Seq<char>,
            >("argument policy must be a string"@)
        }),
{
    reveal_strlit("ignore");
    reveal_strlit("zero");
    reveal_strlit("random");
    reveal_strlit("randomize");
    assert("random"@[0] != "ignore"@[0]);
    assert("random"@ != "ignore"@);
    assert("zero"@.len() == 4 && "randomize"@.len() == 9);
    assert("zero"@ != "ignore"@ && "zero"@ != "random"@ && "zero"@ != "randomize"@);
    assert("randomize"@ != "ignore"@ && "randomize"@ != "random"@);
}

/// A saved machine has to be among the arguments, and to be readable; a complaint about it carries
/// what reading it complained about.
pub proof fn law_saved_machines(args: Option<&Arguments>, read: Result<VmDump, String>)
    ensures
        args is None ==> dump_complaint(args, read) == Some("missing arguments"@),
        args is Some && argument_of(args, "dump"@) is None ==> dump_complaint(args, read) == Some(
            "missing argument: dump"@,
        ),
        argument_of(args, "dump"@) is Some && read is Err ==> dump_complaint(args, read) == Some(
            "invalid dump payload: "@ + read->Err_0@,
        ),
        argument_of(args, "dump"@) is Some && read is Ok ==> dump_complaint(args, read) is None,
{
}

/// A response carries the number of its request twice, and its command. An answer of success has
/// no message; a refusal has one, and nothing else.
pub proof fn law_responses<B>(
    answer: ControlResponse<B>,
    id: u64,
    command: Seq<char>,
    message: Seq<char>,
)
    ensures
        answer.succeeds(id, command) <==> answer.id == id && answer.seq == id && answer.success
            && answer.command@ == command && answer.message is None,
        answer.refuses(id, command, message) <==> answer.id == id && answer.seq == id
            && !answer.success && answer.command@ == command && answer.message is Some
            && answer.message->0@ == message && answer.body is None,
{
}

/// A request without a number counts as number zero; one that says of itself that it is something
/// else than a request is foreign, and one that says nothing is not.
pub proof fn law_requests(req: ControlRequest, command: Seq<char>)
    ensures
        req.id matches Some(id) ==> req.number() == id,
        req.id is None ==> req.number() == 0,
        req.request_type is None ==> !req.is_foreign(),
        req.request_type matches Some(kind) ==> req.is_foreign() == (kind@ != "request"@),
        foreign_text() == "if provided, type must be 'request'"@,
        halted_text() == "Program is halted or not loaded"@,
        not_bytes_text() == "argument bytes must be an array of integers"@,
        unsupported_text(command) == "unsupported control command: "@ + command,
{
}

} // verus!
