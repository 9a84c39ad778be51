//! The wire format of the key server.
//!
//! A message is a three-character command, `\r\n`, then its data. The data is a
//! run of key/value pairs: `$` (bytes) or `#` (integer), the key's length in
//! decimal, `:`, the value's length in decimal, `:`, the key, the value.
//! For example `#2:1:id2$3:5:msghello` holds `id: 2` and `msg: "hello"`.
//! A zero byte, `\r` or `\n` where a pair would start ends the data.
use vstd::prelude::*;
use vstd::utf8::*;

use crate::text::{
    all_digits, ascii_chars, ascii_string, decimal, decimal_string, digits_value, int_text, int_text_bytes,
    is_alnum, is_digit, lemma_digits_value_push, push_bytes, push_decimal, push_str_bytes,
};
pub use crate::value::{
    distinct_keys, has_key, insert_entry, key_index, lookup, EntryModel, MessageData, Value,
    ValueModel,
};

verus! {

broadcast use vstd::utf8::group_utf8_lib;

/// Why a message, or the data of one, was refused.
#[derive(Debug, Clone, Copy, PartialEq, Eq, Structural)]
pub enum DecodeError {
    /// The data ended (zero byte, `\r` or `\n`) before its first pair.
    EmptyData,
    /// The input ran out before the first pair.
    MissingData,
    /// A pair started with a byte other than `$` or `#`.
    UnrecognizedStartingByte(u8),
    /// A byte other than a digit or `:` in the key's length.
    KeyLengthByte(u8),
    /// A byte other than a digit or `:` in the value's length.
    ValueLengthByte(u8),
    /// A byte in a key that is not an ASCII letter or digit.
    KeyByte(u8),
    /// A byte in an integer value that is not a digit.
    IntegerByte(u8),
    /// The command is not three bytes long.
    CommandLength,
    /// The command is not followed by `\r\n`.
    CommandTerminator,
}

/// The text that reports a decoding error.
pub open spec fn decode_error_text(e: DecodeError) -> Seq<char> {
    match e {
        DecodeError::EmptyData => "Failed to get starting byte"@,
        DecodeError::MissingData => "Expected starting byte but none found"@,
        DecodeError::UnrecognizedStartingByte(b) => "Unrecognized starting byte: '"@ + ascii_chars(
            decimal(b as nat),
        ) + "'"@,
        DecodeError::KeyLengthByte(b) => "Unexpected character in length of key '"@ + ascii_chars(
            decimal(b as nat),
        ) + "'"@,
        DecodeError::ValueLengthByte(b) => "Unexpected character in length of value '"@
            + ascii_chars(decimal(b as nat)) + "'"@,
        DecodeError::KeyByte(b) => "Unsupported byte in key: '"@ + ascii_chars(decimal(b as nat))
            + "'"@,
        DecodeError::IntegerByte(b) => "Unsupported byte in integer value: '"@ + ascii_chars(
            decimal(b as nat),
        ) + "'"@,
        DecodeError::CommandLength => "Not able to parse 3 character command"@,
        DecodeError::CommandTerminator => "No 3 character command deteceted"@,
    }
}

/// `prefix`, the numeral of `b`, and a closing quote.
fn quoted_byte(prefix: &str, b: u8) -> (r: String)
    ensures
        r@ == prefix@ + ascii_chars(decimal(b as nat)) + "'"@,
{
    let mut s = prefix.to_owned();
    let n = decimal_string(b as u64);
    s.append(n.as_str());
    s.append("'");
    s
}

impl DecodeError {
    /// The text that reports this error.
    pub fn message(&self) -> (r: String)
        ensures
            r@ == decode_error_text(*self),
    {
        match self {
            DecodeError::EmptyData => "Failed to get starting byte".to_owned(),
            DecodeError::MissingData => "Expected starting byte but none found".to_owned(),
            DecodeError::UnrecognizedStartingByte(b) => quoted_byte(
                "Unrecognized starting byte: '",
                *b,
            ),
            DecodeError::KeyLengthByte(b) => quoted_byte(
                "Unexpected character in length of key '",
                *b,
            ),
            DecodeError::ValueLengthByte(b) => quoted_byte(
                "Unexpected character in length of value '",
                *b,
            ),
            DecodeError::KeyByte(b) => quoted_byte("Unsupported byte in key: '", *b),
            DecodeError::IntegerByte(b) => quoted_byte("Unsupported byte in integer value: '", *b),
            DecodeError::CommandLength => "Not able to parse 3 character command".to_owned(),
            DecodeError::CommandTerminator => "No 3 character command deteceted".to_owned(),
        }
    }
}

/// A decoded message: its command and its data.
#[derive(Debug)]
pub struct MessageCommand {
    pub command: String,
    pub data: MessageData,
}

// ---------------------------------------------------------------------------
// Encoding
// ---------------------------------------------------------------------------

/// The encoding of one pair.
pub open spec fn encode_entry(k: Seq<char>, v: ValueModel) -> Seq<u8> {
    let kb = encode_utf8(k);
    match v {
        ValueModel::Data(d) => seq![36u8] + decimal(kb.len()) + seq![58u8] + decimal(d.len())
            + seq![58u8] + kb + d,
        ValueModel::Integer(i) => {
            let t = int_text(i as int);
            seq![35u8] + decimal(kb.len()) + seq![58u8] + decimal(t.len()) + seq![58u8] + kb + t
        },
    }
}

/// The encoding of a sequence of pairs, one after the other.
pub open spec fn encode_entries(es: Seq<EntryModel>) -> Seq<u8>
    decreases es.len(),
{
    if es.len() == 0 {
        Seq::<u8>::empty()
    } else {
        encode_entries(es.drop_last()) + encode_entry(es.last().0, es.last().1)
    }
}

/// The encoding of a whole message.
pub open spec fn encode_message_bytes(command: Seq<char>, es: Seq<EntryModel>) -> Seq<u8> {
    encode_utf8(command) + seq![13u8, 10u8] + encode_entries(es)
}

/// Appends the encoding of one pair.
fn push_entry(out: &mut Vec<u8>, key: &String, value: &Value)
    ensures
        final(out)@ == old(out)@ + encode_entry(key@, value@),
{
    let k: &str = key.as_str();
    let klen: usize = k.as_bytes().len();
    let ghost kb = encode_utf8(key@);
    assert(klen == kb.len());
    let ghost start = out@;
    match value {
        Value::Data(d) => {
            out.push(36);
            push_decimal(out, klen as u64);
            out.push(58);
            push_decimal(out, d.len() as u64);
            out.push(58);
            push_str_bytes(out, k);
            push_bytes(out, d.as_slice());
            assert(out@ =~= start + (seq![36u8] + decimal(kb.len()) + seq![58u8] + decimal(
                d@.len(),
            ) + seq![58u8] + kb + d@));
        },
        Value::Integer(i) => {
            let t = int_text_bytes(*i);
            out.push(35);
            push_decimal(out, klen as u64);
            out.push(58);
            push_decimal(out, t.len() as u64);
            out.push(58);
            push_str_bytes(out, k);
            push_bytes(out, t.as_slice());
            assert(out@ =~= start + (seq![35u8] + decimal(kb.len()) + seq![58u8] + decimal(
                t@.len(),
            ) + seq![58u8] + kb + t@));
        },
    }
}

/// Appends the encoding of all pairs of `data`, in its order.
fn push_entries(out: &mut Vec<u8>, data: &MessageData)
    ensures
        final(out)@ == old(out)@ + encode_entries(data@),
{
    let n = data.len();
    let ghost start = out@;
    for i in 0..n
        invariant
            n == data@.len(),
            out@ == start + encode_entries(data@.take(i as int)),
    {
        let (k, v) = data.entry(i);
        push_entry(out, k, v);
        proof {
            let t = data@.take(i + 1);
            assert(t.drop_last() =~= data@.take(i as int));
            assert(t.last() == data@[i as int]);
            assert(out@ =~= start + encode_entries(t));
        }
    }
    assert(data@.take(n as int) =~= data@);
}

/// Encodes the data of a message.
pub fn encode_data(data: MessageData) -> (r: Vec<u8>)
    ensures
        r@ == encode_entries(data@),
{
    let mut r: Vec<u8> = Vec::new();
    push_entries(&mut r, &data);
    assert(r@ =~= encode_entries(data@));
    r
}

/// Encodes a whole message: the command, `\r\n`, then the data.
pub fn encode_message(command: &str, data: MessageData) -> (r: Vec<u8>)
    ensures
        r@ == encode_message_bytes(command@, data@),
{
    let mut r: Vec<u8> = Vec::new();
    push_str_bytes(&mut r, command);
    r.push(13);
    r.push(10);
    push_entries(&mut r, &data);
    assert(r@ =~= encode_message_bytes(command@, data@));
    r
}

/// The key under which an error reply carries its text.
pub open spec fn msg_key() -> Seq<char> {
    seq!['m', 's', 'g']
}

/// The encoding of an error reply: the command with a `-` in front, and the text
/// under the key `msg`.
pub open spec fn error_message_bytes(command: Seq<char>, text: Seq<char>) -> Seq<u8> {
    encode_message_bytes(seq!['-'] + command, seq![(msg_key(), ValueModel::Data(encode_utf8(text)))])
}

/// Encodes an error reply to `command` carrying `text`.
pub fn error_message(command: &str, text: &str) -> (r: Vec<u8>)
    ensures
        r@ == error_message_bytes(command@, text@),
{
    let mut cmd = "-".to_owned();
    cmd.append(command);
    let key = "msg".to_owned();
    proof {
        reveal_strlit("-");
        reveal_strlit("msg");
        assert(key@ =~= msg_key());
        assert(cmd@ =~= seq!['-'] + command@);
    }
    let mut data = MessageData::new();
    data.insert(key, Value::from_text(text));
    assert(data@ =~= seq![(msg_key(), ValueModel::Data(encode_utf8(text@)))]);
    let r = encode_message(cmd.as_str(), data);
    r
}

// ---------------------------------------------------------------------------
// Decoding: the meaning
// ---------------------------------------------------------------------------

/// The end of the run of digits that starts at `j`.
pub open spec fn digit_run_end(s: Seq<u8>, j: int) -> int
    decreases s.len() - j,
{
    if 0 <= j < s.len() && is_digit(s[j]) {
        digit_run_end(s, j + 1)
    } else {
        j
    }
}

/// What reading a length field at `j` gives.
pub enum LengthField {
    /// The length, and where the field ends (after its `:`).
    Length(nat, int),
    /// The field holds this byte, which is neither a digit nor `:`.
    Refused(u8),
    /// The input ends inside the field, the field is empty, or the length is
    /// above `u32::MAX`.
    Aborted,
}

/// Reads a length field at `j`: decimal digits closed by `:`.
pub open spec fn length_field(s: Seq<u8>, j: int) -> LengthField {
    let k = digit_run_end(s, j);
    if k >= s.len() {
        LengthField::Aborted
    } else if s[k] != 58 {
        LengthField::Refused(s[k])
    } else if k == j {
        LengthField::Aborted
    } else if digits_value(s.subrange(j, k)) > u32::MAX {
        LengthField::Aborted
    } else {
        LengthField::Length(digits_value(s.subrange(j, k)), k + 1)
    }
}

/// Whether `b` may stand in a region that holds digits (`digits`) or a key.
pub open spec fn region_byte_ok(b: u8, digits: bool) -> bool {
    if digits {
        is_digit(b)
    } else {
        is_alnum(b)
    }
}

/// The first position in `from..to` that is past the input or holds a byte that
/// may not stand there; `to` where there is none.
pub open spec fn first_fault(s: Seq<u8>, from: int, to: int, digits: bool) -> int
    decreases to - from,
{
    if from >= to {
        to
    } else if from < 0 || from >= s.len() || !region_byte_ok(s[from], digits) {
        from
    } else {
        first_fault(s, from + 1, to, digits)
    }
}

/// What reading at one position of the data gives.
pub enum Scan {
    /// A pair, and where the next one starts.
    Entry(Seq<char>, ValueModel, int),
    /// The input has ended.
    End,
    /// A zero byte, `\r` or `\n` ends the data.
    Terminator,
    /// The data is refused.
    Refused(DecodeError),
    /// The input ends inside the pair, or a number in it is empty or too large.
    Aborted,
}

/// Reads the value of a pair whose key ends at `ke`.
pub open spec fn scan_value(s: Seq<u8>, tag: u8, key: Seq<char>, ke: int, vl: nat) -> Scan {
    let ve = ke + vl;
    if tag == 36 {
        if ve > s.len() {
            Scan::Aborted
        } else {
            Scan::Entry(key, ValueModel::Data(s.subrange(ke, ve)), ve)
        }
    } else {
        let q = first_fault(s, ke, ve, true);
        if q < ve {
            if q >= s.len() {
                Scan::Aborted
            } else {
                Scan::Refused(DecodeError::IntegerByte(s[q]))
            }
        } else if vl == 0 {
            Scan::Aborted
        } else if digits_value(s.subrange(ke, ve)) > i32::MAX {
            Scan::Aborted
        } else {
            Scan::Entry(key, ValueModel::Integer(digits_value(s.subrange(ke, ve)) as i32), ve)
        }
    }
}

/// Reads the key and value of a pair whose lengths have been read, the key
/// starting at `ks`.
pub open spec fn scan_body(s: Seq<u8>, tag: u8, ks: int, kl: nat, vl: nat) -> Scan {
    let ke = ks + kl;
    let p = first_fault(s, ks, ke, false);
    if p < ke {
        if p >= s.len() {
            Scan::Aborted
        } else {
            Scan::Refused(DecodeError::KeyByte(s[p]))
        }
    } else {
        scan_value(s, tag, ascii_chars(s.subrange(ks, ke)), ke, vl)
    }
}

/// Reads one pair, or the end of the data, at position `i`.
pub open spec fn scan_entry(s: Seq<u8>, i: int) -> Scan {
    if i >= s.len() {
        Scan::End
    } else {
        let b = s[i];
        if b == 36 || b == 35 {
            match length_field(s, i + 1) {
                LengthField::Refused(c) => Scan::Refused(DecodeError::KeyLengthByte(c)),
                LengthField::Aborted => Scan::Aborted,
                LengthField::Length(kl, j) => match length_field(s, j) {
                    LengthField::Refused(c) => Scan::Refused(DecodeError::ValueLengthByte(c)),
                    LengthField::Aborted => Scan::Aborted,
                    LengthField::Length(vl, ks) => scan_body(s, b, ks, kl, vl),
                },
            }
        } else if b == 0 || b == 13 || b == 10 {
            Scan::Terminator
        } else {
            Scan::Refused(DecodeError::UnrecognizedStartingByte(b))
        }
    }
}

/// What decoding data gives.
pub enum DataOutcome {
    Decoded(Seq<EntryModel>),
    Refused(DecodeError),
    /// The input is cut short inside a pair, or a number in it is empty or too
    /// large: no result.
    Aborted,
}

/// Decodes the data from position `i` on, with `acc` decoded so far.
pub open spec fn parse_from(s: Seq<u8>, i: int, acc: Seq<EntryModel>) -> DataOutcome
    decreases s.len() - i,
{
    match scan_entry(s, i) {
        Scan::Entry(k, v, n) => if i < n <= s.len() {
            parse_from(s, n, insert_entry(acc, k, v))
        } else {
            DataOutcome::Aborted
        },
        Scan::End => if acc.len() > 0 {
            DataOutcome::Decoded(acc)
        } else {
            DataOutcome::Refused(DecodeError::MissingData)
        },
        Scan::Terminator => if acc.len() > 0 {
            DataOutcome::Decoded(acc)
        } else {
            DataOutcome::Refused(DecodeError::EmptyData)
        },
        Scan::Refused(e) => DataOutcome::Refused(e),
        Scan::Aborted => DataOutcome::Aborted,
    }
}

/// What decoding `s` as data gives.
pub open spec fn decode_data_spec(s: Seq<u8>) -> DataOutcome {
    parse_from(s, 0, Seq::<EntryModel>::empty())
}

/// What `String::from_utf8_lossy` makes of `bytes`.
pub uninterp spec fn lossy_utf8(bytes: Seq<u8>) -> Seq<char>;

/// The bytes that are read as the command: the first three, or all there are.
pub open spec fn command_bytes(s: Seq<u8>) -> Seq<u8> {
    if s.len() < 3 {
        s
    } else {
        s.take(3)
    }
}

/// What decoding a message gives.
pub enum MessageOutcome {
    Decoded(Seq<char>, Seq<EntryModel>),
    Refused(DecodeError),
    Aborted,
}

/// What decoding the message `s` gives, where its command reads as `command`.
pub open spec fn message_outcome(s: Seq<u8>, command: Seq<char>) -> MessageOutcome {
    if encode_utf8(command).len() != 3 {
        MessageOutcome::Refused(DecodeError::CommandLength)
    } else if !(s.len() >= 5 && s[3] == 13 && s[4] == 10) {
        MessageOutcome::Refused(DecodeError::CommandTerminator)
    } else {
        match decode_data_spec(s.skip(5)) {
            DataOutcome::Decoded(es) => MessageOutcome::Decoded(command, es),
            DataOutcome::Refused(e) => if e == DecodeError::EmptyData {
                MessageOutcome::Decoded(command, Seq::<EntryModel>::empty())
            } else {
                MessageOutcome::Refused(e)
            },
            DataOutcome::Aborted => MessageOutcome::Aborted,
        }
    }
}

/// What decoding the message `s` gives.
pub open spec fn decode_message_spec(s: Seq<u8>) -> MessageOutcome {
    message_outcome(s, lossy_utf8(command_bytes(s)))
}

/// `r` is what `o` says decoding data gives, where it gives anything.
pub open spec fn data_result_matches(r: Option<Result<MessageData, DecodeError>>, o: DataOutcome) -> bool {
    match o {
        DataOutcome::Decoded(es) => r matches Some(Ok(d)) && d@ == es,
        DataOutcome::Refused(e) => r matches Some(Err(x)) && x == e,
        DataOutcome::Aborted => r is None,
    }
}

/// `r` is what `o` says decoding a message gives, where it gives anything.
pub open spec fn message_result_matches(
    r: Option<Result<MessageCommand, DecodeError>>,
    o: MessageOutcome,
) -> bool {
    match o {
        MessageOutcome::Decoded(c, es) => r matches Some(Ok(m)) && m.command@ == c && m.data@ == es,
        MessageOutcome::Refused(e) => r matches Some(Err(x)) && x == e,
        MessageOutcome::Aborted => r is None,
    }
}


// ---------------------------------------------------------------------------
// Decoding: the code
// ---------------------------------------------------------------------------

/// `String::from_utf8_lossy`, made owned. The claim: the result is a function of
/// the bytes alone, and on valid UTF-8 it is the decoding of the bytes (its
/// documentation: invalid sequences are replaced, valid input is returned as is).
/// What it makes of invalid input is left unsaid.
#[verifier::external_body]
fn utf8_lossy(bytes: &[u8]) -> (r: String)
    ensures
        r@ == lossy_utf8(bytes@),
        valid_utf8(bytes@) ==> r@ == decode_utf8(bytes@),
{
    String::from_utf8_lossy(bytes).into_owned()
}

/// What reading a length field gave, in code.
enum LengthRead {
    Length(u32, usize),
    Refused(u8),
    Aborted,
}

impl LengthRead {
    spec fn model(&self) -> LengthField {
        match self {
            LengthRead::Length(n, j) => LengthField::Length(*n as nat, *j as int),
            LengthRead::Refused(b) => LengthField::Refused(*b),
            LengthRead::Aborted => LengthField::Aborted,
        }
    }
}

/// The number denoted by the digits `s[from..to]`, where it is at most `cap`;
/// a number above `cap` otherwise.
fn capped_number(s: &[u8], from: usize, to: usize, cap: u64) -> (r: u64)
    requires
        from <= to <= s@.len(),
        all_digits(s@.subrange(from as int, to as int)),
        cap <= u32::MAX,
    ensures
        digits_value(s@.subrange(from as int, to as int)) <= cap ==> r == digits_value(
            s@.subrange(from as int, to as int),
        ),
        digits_value(s@.subrange(from as int, to as int)) > cap ==> r > cap,
{
    let mut val: u64 = 0;
    let mut k: usize = from;
    assert(s@.subrange(from as int, from as int) =~= Seq::<u8>::empty());
    while k < to
        invariant
            from <= k <= to <= s@.len(),
            all_digits(s@.subrange(from as int, to as int)),
            cap <= u32::MAX,
            val <= cap * 10 + 9,
            digits_value(s@.subrange(from as int, k as int)) <= cap ==> val == digits_value(
                s@.subrange(from as int, k as int),
            ),
            digits_value(s@.subrange(from as int, k as int)) > cap ==> val > cap,
        decreases to - k,
    {
        let b: u8 = s[k];
        assert(s@.subrange(from as int, to as int)[k - from] == b);
        assert(is_digit(b));
        let ghost prev = s@.subrange(from as int, k as int);
        assert(s@.subrange(from as int, k + 1) =~= prev.push(b));
        proof {
            lemma_digits_value_push(prev, b);
        }
        if val <= cap {
            val = val * 10 + (b - 48) as u64;
        }
        k = k + 1;
    }
    val
}

/// Reads a length field at `j`.
fn read_length(s: &[u8], j: usize) -> (r: LengthRead)
    requires
        j <= s@.len(),
    ensures
        r.model() == length_field(s@, j as int),
        r matches LengthRead::Length(_, e) ==> j < e <= s@.len(),
{
    let mut k: usize = j;
    assert(s@.subrange(j as int, j as int) =~= Seq::<u8>::empty());
    while k < s.len() && 48 <= s[k] && s[k] <= 57
        invariant
            j <= k <= s@.len(),
            digit_run_end(s@, j as int) == digit_run_end(s@, k as int),
            all_digits(s@.subrange(j as int, k as int)),
        decreases s@.len() - k,
    {
        assert(all_digits(s@.subrange(j as int, k + 1))) by {
            assert forall|i: int| 0 <= i < k + 1 - j implies is_digit(
                #[trigger] s@.subrange(j as int, k + 1)[i],
            ) by {
                if i < k - j {
                    assert(s@.subrange(j as int, k + 1)[i] == s@.subrange(j as int, k as int)[i]);
                }
            }
        }
        k = k + 1;
    }
    assert(digit_run_end(s@, k as int) == k);
    if k >= s.len() {
        LengthRead::Aborted
    } else if s[k] != 58 {
        LengthRead::Refused(s[k])
    } else if k == j {
        LengthRead::Aborted
    } else {
        let v = capped_number(s, j, k, 0xFFFF_FFFF);
        if v > 0xFFFF_FFFF {
            LengthRead::Aborted
        } else {
            LengthRead::Length(v as u32, k + 1)
        }
    }
}

fn region_byte_ok_exec(b: u8, digits: bool) -> (r: bool)
    ensures
        r == region_byte_ok(b, digits),
{
    if digits {
        48 <= b && b <= 57
    } else {
        (48 <= b && b <= 57) || (65 <= b && b <= 90) || (97 <= b && b <= 122)
    }
}

/// `first_fault` never lies past the input, where it starts within it.
proof fn lemma_first_fault_bound(s: Seq<u8>, from: int, to: int, digits: bool)
    requires
        0 <= from <= s.len(),
    ensures
        from <= first_fault(s, from, to, digits) <= s.len() || first_fault(s, from, to, digits) == to,
        first_fault(s, from, to, digits) >= to ==> first_fault(s, from, to, digits) == to && (from
            >= to || to <= s.len()),
        first_fault(s, from, to, digits) == to && from < to ==> forall|i: int|
            from <= i < to ==> region_byte_ok(#[trigger] s[i], digits),
    decreases to - from,
{
    if from < to && from < s.len() && region_byte_ok(s[from], digits) {
        lemma_first_fault_bound(s, from + 1, to, digits);
    }
}

/// The first position in `from..from + count` past the input or holding a byte
/// that may not stand there, or `from + count`.
fn scan_region(s: &[u8], from: usize, count: usize, digits: bool) -> (r: usize)
    requires
        from <= s@.len(),
    ensures
        r as int == first_fault(s@, from as int, from + count, digits),
{
    let avail: usize = s.len() - from;
    let end: usize = if count <= avail {
        from + count
    } else {
        s.len()
    };
    let mut p: usize = from;
    while p < end && region_byte_ok_exec(s[p], digits)
        invariant
            from <= p <= end <= s@.len(),
            end == from + count || (end == s@.len() && from + count > s@.len()),
            first_fault(s@, from as int, from + count, digits) == first_fault(
                s@,
                p as int,
                from + count,
                digits,
            ),
        decreases end - p,
    {
        p = p + 1;
    }
    p
}

/// What reading at one position gave, in code.
enum ScanResult {
    Entry(String, Value, usize),
    End,
    Terminator,
    Refused(DecodeError),
    Aborted,
}

impl ScanResult {
    spec fn model(&self) -> Scan {
        match self {
            ScanResult::Entry(k, v, n) => Scan::Entry(k@, v@, *n as int),
            ScanResult::End => Scan::End,
            ScanResult::Terminator => Scan::Terminator,
            ScanResult::Refused(e) => Scan::Refused(*e),
            ScanResult::Aborted => Scan::Aborted,
        }
    }
}

/// Reads the value of a pair.
fn read_value(s: &[u8], tag: u8, key: String, ke: usize, vl: u32) -> (r: ScanResult)
    requires
        ke <= s@.len(),
        tag == 36 || tag == 35,
    ensures
        r.model() == scan_value(s@, tag, key@, ke as int, vl as nat),
        r matches ScanResult::Entry(_, _, n) ==> ke <= n <= s@.len(),
{
    let vl: usize = vl as usize;
    if tag == 36 {
        if vl > s.len() - ke {
            ScanResult::Aborted
        } else {
            let v = vstd::slice::slice_to_vec(vstd::slice::slice_subrange(s, ke, ke + vl));
            ScanResult::Entry(key, Value::Data(v), ke + vl)
        }
    } else {
        let q = scan_region(s, ke, vl, true);
        proof {
            lemma_first_fault_bound(s@, ke as int, ke + vl, true);
        }
        if vl > s.len() - ke || q < ke + vl {
            if q >= s.len() {
                ScanResult::Aborted
            } else {
                ScanResult::Refused(DecodeError::IntegerByte(s[q]))
            }
        } else if vl == 0 {
            ScanResult::Aborted
        } else {
            let ve: usize = ke + vl;
            assert(all_digits(s@.subrange(ke as int, ve as int))) by {
                assert forall|i: int| 0 <= i < ve - ke implies is_digit(
                    #[trigger] s@.subrange(ke as int, ve as int)[i],
                ) by {
                    assert(region_byte_ok(s@[ke + i], true));
                }
            }
            let n = capped_number(s, ke, ve, 0x7FFF_FFFF);
            if n > 0x7FFF_FFFF {
                ScanResult::Aborted
            } else {
                ScanResult::Entry(key, Value::Integer(n as i32), ve)
            }
        }
    }
}

/// Reads the key and value of a pair whose lengths have been read.
fn read_body(s: &[u8], tag: u8, ks: usize, kl: u32, vl: u32) -> (r: ScanResult)
    requires
        ks <= s@.len(),
        tag == 36 || tag == 35,
    ensures
        r.model() == scan_body(s@, tag, ks as int, kl as nat, vl as nat),
        r matches ScanResult::Entry(_, _, n) ==> ks <= n <= s@.len(),
{
    let kl: usize = kl as usize;
    let p = scan_region(s, ks, kl, false);
    proof {
        lemma_first_fault_bound(s@, ks as int, ks + kl, false);
    }
    if kl > s.len() - ks || p < ks + kl {
        if p >= s.len() {
            ScanResult::Aborted
        } else {
            ScanResult::Refused(DecodeError::KeyByte(s[p]))
        }
    } else {
        let ke: usize = ks + kl;
        let kb = vstd::slice::slice_to_vec(vstd::slice::slice_subrange(s, ks, ke));
        assert(kb@ == s@.subrange(ks as int, ke as int));
        assert forall|i: int| 0 <= i < kb@.len() implies #[trigger] kb@[i] < 128 by {
            assert(region_byte_ok(s@[ks + i], false));
        }
        let key = ascii_string(kb);
        read_value(s, tag, key, ke, vl as u32)
    }
}

/// Reads one pair, or the end of the data, at position `i`.
fn read_entry(s: &[u8], i: usize) -> (r: ScanResult)
    requires
        i <= s@.len(),
    ensures
        r.model() == scan_entry(s@, i as int),
        r matches ScanResult::Entry(_, _, n) ==> i < n <= s@.len(),
{
    if i >= s.len() {
        return ScanResult::End;
    }
    let b = s[i];
    if b == 36 || b == 35 {
        match read_length(s, i + 1) {
            LengthRead::Refused(c) => ScanResult::Refused(DecodeError::KeyLengthByte(c)),
            LengthRead::Aborted => ScanResult::Aborted,
            LengthRead::Length(kl, j) => {
                assert(j <= s@.len());
                match read_length(s, j) {
                    LengthRead::Refused(c) => ScanResult::Refused(DecodeError::ValueLengthByte(c)),
                    LengthRead::Aborted => ScanResult::Aborted,
                    LengthRead::Length(vl, ks) => {
                        read_body(s, b, ks, kl, vl)
                    },
                }
            },
        }
    } else if b == 0 || b == 13 || b == 10 {
        ScanResult::Terminator
    } else {
        ScanResult::Refused(DecodeError::UnrecognizedStartingByte(b))
    }
}

/// Decodes data; nothing where the input is cut short inside a pair, or a
/// number in it is empty or too large.
pub fn try_decode_data(s: &[u8]) -> (r: Option<Result<MessageData, DecodeError>>)
    ensures
        data_result_matches(r, decode_data_spec(s@)),
{
    let mut acc = MessageData::new();
    let mut pos: usize = 0;
    loop
        invariant
            pos <= s@.len(),
            parse_from(s@, pos as int, acc@) == decode_data_spec(s@),
        decreases s@.len() - pos,
    {
        match read_entry(s, pos) {
            ScanResult::Entry(k, v, n) => {
                acc.insert(k, v);
                pos = n;
            },
            ScanResult::End => {
                if acc.len() > 0 {
                    return Some(Ok(acc));
                } else {
                    return Some(Err(DecodeError::MissingData));
                }
            },
            ScanResult::Terminator => {
                if acc.len() > 0 {
                    return Some(Ok(acc));
                } else {
                    return Some(Err(DecodeError::EmptyData));
                }
            },
            ScanResult::Refused(e) => {
                return Some(Err(e));
            },
            ScanResult::Aborted => {
                return None;
            },
        }
    }
}

/// Decodes the data of a message.
pub fn decode_data(s: &[u8]) -> (r: Result<MessageData, DecodeError>)
    requires
        !(decode_data_spec(s@) is Aborted),
    ensures
        data_result_matches(Some(r), decode_data_spec(s@)),
{
    match try_decode_data(s) {
        Some(r) => r,
        None => {
            proof {
                assert(false);
            }
            Err(DecodeError::MissingData)
        },
    }
}

/// Decodes a message whose first bytes read as `command`; nothing where its data
/// is cut short inside a pair, or a number in it is empty or too large.
pub fn assemble_message(command: String, s: &[u8]) -> (r: Option<Result<MessageCommand, DecodeError>>)
    ensures
        message_result_matches(r, message_outcome(s@, command@)),
{
    if command.as_str().as_bytes().len() != 3 {
        return Some(Err(DecodeError::CommandLength));
    }
    if !(s.len() >= 5 && s[3] == 13 && s[4] == 10) {
        return Some(Err(DecodeError::CommandTerminator));
    }
    let rest = vstd::slice::slice_subrange(s, 5, s.len());
    assert(rest@ =~= s@.skip(5));
    match try_decode_data(rest) {
        Some(Ok(data)) => Some(Ok(MessageCommand { command, data })),
        Some(Err(e)) => {
            if e == DecodeError::EmptyData {
                Some(Ok(MessageCommand { command, data: MessageData::new() }))
            } else {
                Some(Err(e))
            }
        },
        None => None,
    }
}

/// The bytes read as the command.
fn command_slice(s: &[u8]) -> (r: &[u8])
    ensures
        r@ == command_bytes(s@),
{
    if s.len() < 3 {
        s
    } else {
        let r = vstd::slice::slice_subrange(s, 0, 3);
        assert(r@ =~= s@.take(3));
        r
    }
}

/// Decodes a message: the command, `\r\n`, then the data.
pub fn decode_message(s: &[u8]) -> (r: Result<MessageCommand, DecodeError>)
    requires
        !(decode_message_spec(s@) is Aborted),
    ensures
        message_result_matches(Some(r), decode_message_spec(s@)),
        valid_utf8(command_bytes(s@)) ==> message_result_matches(
            Some(r),
            message_outcome(s@, decode_utf8(command_bytes(s@))),
        ),
{
    let command = utf8_lossy(command_slice(s));
    match assemble_message(command, s) {
        Some(r) => r,
        None => {
            proof {
                assert(false);
            }
            Err(DecodeError::CommandLength)
        },
    }
}

/// Decodes a message; nothing where its data is cut short inside a pair, or a
/// number in it is empty or too large.
pub fn try_decode_message(s: &[u8]) -> (r: Option<Result<MessageCommand, DecodeError>>)
    ensures
        message_result_matches(r, decode_message_spec(s@)),
        valid_utf8(command_bytes(s@)) ==> message_result_matches(
            r,
            message_outcome(s@, decode_utf8(command_bytes(s@))),
        ),
{
    let command = utf8_lossy(command_slice(s));
    match assemble_message(command, s) {
        Some(_) => Some(decode_message(s)),
        None => None,
    }
}

/// `s` followed by `k` zero bytes.
pub open spec fn zero_padded(s: Seq<u8>, k: nat) -> Seq<u8> {
    s + Seq::new(k, |i: int| 0u8)
}

/// Decodes a message as if its input went on with zero bytes: `s` followed by
/// the fewest zeros, from one up to `max_pad`, on which decoding does not run
/// out of input inside a pair. Gives that number of zeros with what decoding
/// gives; nothing where every such padding runs out.
pub fn decode_zero_padded(s: &[u8], max_pad: usize) -> (r: Option<(usize, Result<MessageCommand, DecodeError>)>)
    requires
        s.len() + max_pad <= usize::MAX,
    ensures
        r is None <==> forall|k: int|
            1 <= k <= max_pad ==> #[trigger] decode_message_spec(zero_padded(s@, k as nat)) is Aborted,
        r matches Some((k, m)) ==> {
            &&& 1 <= k <= max_pad
            &&& forall|j: int|
                1 <= j < k ==> #[trigger] decode_message_spec(zero_padded(s@, j as nat)) is Aborted
            &&& message_result_matches(Some(m), decode_message_spec(zero_padded(s@, k as nat)))
        },
{
    let mut buf = vstd::slice::slice_to_vec(s);
    let mut k: usize = 0;
    assert(buf@ =~= zero_padded(s@, 0));
    while k < max_pad
        invariant
            k <= max_pad,
            s.len() + max_pad <= usize::MAX,
            buf@ == zero_padded(s@, k as nat),
            forall|j: int|
                1 <= j <= k ==> #[trigger] decode_message_spec(zero_padded(s@, j as nat)) is Aborted,
        decreases max_pad - k,
    {
        buf.push(0u8);
        k = k + 1;
        assert(buf@ =~= zero_padded(s@, k as nat));
        match try_decode_message(buf.as_slice()) {
            Some(m) => {
                return Some((k, m));
            },
            None => {},
        }
    }
    None
}

} // verus!
