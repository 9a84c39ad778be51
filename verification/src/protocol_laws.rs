//! What holds of encoding and decoding together.
use vstd::prelude::*;
use vstd::utf8::*;

use crate::protocol::{
    decode_data_spec, digit_run_end, encode_entries, encode_entry, encode_message_bytes,
    first_fault, length_field, message_outcome, parse_from, region_byte_ok, scan_body,
    scan_entry, scan_value, DataOutcome, DecodeError, LengthField, MessageOutcome, Scan,
};
use crate::text::{
    all_alnum, all_alnum_chars, all_digits, ascii_chars, decimal, digits_value, int_text,
    is_alnum, is_digit, lemma_alnum_chars_utf8, lemma_decimal_digits,
    lemma_digits_value_decimal,
};
use crate::value::{distinct_keys, has_key, insert_entry, key_index, EntryModel, ValueModel};

verus! {

broadcast use vstd::utf8::group_utf8_lib;

/// A pair that the format can carry and give back: its key is made of ASCII
/// letters and digits, an integer value is not negative, and the key's and a
/// byte value's lengths fit in a `u32`.
pub open spec fn encodable_entry(e: EntryModel) -> bool {
    &&& all_alnum_chars(e.0)
    &&& e.0.len() <= u32::MAX
    &&& match e.1 {
        ValueModel::Data(d) => d.len() <= u32::MAX,
        ValueModel::Integer(i) => i >= 0,
    }
}

/// Data that the format can carry and give back: distinct keys, each pair encodable.
pub open spec fn encodable(es: Seq<EntryModel>) -> bool {
    &&& distinct_keys(es)
    &&& forall|i: int| 0 <= i < es.len() ==> encodable_entry(#[trigger] es[i])
}

/// What may follow encoded data: nothing, or a byte that ends the data.
pub open spec fn ends_data(tail: Seq<u8>) -> bool {
    tail.len() == 0 || tail[0] == 0 || tail[0] == 13 || tail[0] == 10
}

proof fn lemma_digit_run(s: Seq<u8>, j: int, m: int)
    requires
        0 <= j,
        0 <= m,
        j + m <= s.len(),
        forall|i: int| j <= i < j + m ==> is_digit(#[trigger] s[i]),
        j + m < s.len() ==> !is_digit(s[j + m]),
    ensures
        digit_run_end(s, j) == j + m,
    decreases m,
{
    if m > 0 {
        lemma_digit_run(s, j + 1, m - 1);
    }
}

proof fn lemma_first_fault_clean(s: Seq<u8>, from: int, to: int, digits: bool)
    requires
        0 <= from <= to <= s.len(),
        forall|i: int| from <= i < to ==> region_byte_ok(#[trigger] s[i], digits),
    ensures
        first_fault(s, from, to, digits) == to,
    decreases to - from,
{
    if from < to {
        lemma_first_fault_clean(s, from + 1, to, digits);
    }
}

/// A length field written as `decimal(n)` then `:` reads back as `n`.
proof fn lemma_length_field(s: Seq<u8>, j: int, n: nat)
    requires
        0 <= j,
        n <= u32::MAX,
        j + decimal(n).len() < s.len(),
        s.subrange(j, j + decimal(n).len()) == decimal(n),
        s[j + decimal(n).len()] == 58,
    ensures
        length_field(s, j) == LengthField::Length(n, j + decimal(n).len() + 1),
{
    let d = decimal(n);
    lemma_decimal_digits(n);
    lemma_digits_value_decimal(n);
    assert forall|i: int| j <= i < j + d.len() implies is_digit(#[trigger] s[i]) by {
        assert(s[i] == s.subrange(j, j + d.len())[i - j]);
    }
    lemma_digit_run(s, j, d.len() as int);
}

/// The tag of a pair's encoding.
spec fn entry_tag(v: ValueModel) -> u8 {
    match v {
        ValueModel::Data(_) => 36u8,
        ValueModel::Integer(_) => 35u8,
    }
}

/// The bytes of a pair's value in its encoding.
spec fn entry_value_bytes(v: ValueModel) -> Seq<u8> {
    match v {
        ValueModel::Data(d) => d,
        ValueModel::Integer(i) => int_text(i as int),
    }
}

/// The parts of a pair's encoding, and where each lies.
proof fn lemma_entry_layout(k: Seq<char>, v: ValueModel)
    ensures
        ({
            let enc = encode_entry(k, v);
            let kb = encode_utf8(k);
            let t = entry_value_bytes(v);
            let d1 = decimal(kb.len());
            let d2 = decimal(t.len());
            let o2: int = 1int + d1.len();
            let o4: int = o2 + 1 + d2.len();
            let o6: int = o4 + 1 + kb.len();
            &&& enc.len() == o6 + t.len()
            &&& enc[0] == entry_tag(v)
            &&& enc.subrange(1, o2) == d1
            &&& enc[o2] == 58
            &&& enc.subrange(o2 + 1, o4) == d2
            &&& enc[o4] == 58
            &&& enc.subrange(o4 + 1, o6) == kb
            &&& enc.subrange(o6, o6 + t.len()) == t
        }),
{
    let enc = encode_entry(k, v);
    let kb = encode_utf8(k);
    let t = entry_value_bytes(v);
    let d1 = decimal(kb.len());
    let d2 = decimal(t.len());
    let tag = entry_tag(v);
    assert(enc =~= seq![tag] + d1 + seq![58u8] + d2 + seq![58u8] + kb + t);
    let o2: int = 1int + d1.len();
    let o4: int = o2 + 1 + d2.len();
    let o6: int = o4 + 1 + kb.len();
    assert(enc.subrange(1, o2) =~= d1);
    assert(enc.subrange(o2 + 1, o4) =~= d2);
    assert(enc.subrange(o4 + 1, o6) =~= kb);
    assert(enc.subrange(o6, o6 + t.len()) =~= t);
}

/// Where `w` stands in `s` at `p`, its parts stand there too.
proof fn lemma_window(s: Seq<u8>, p: int, w: Seq<u8>, a: int, b: int)
    requires
        0 <= p,
        p + w.len() <= s.len(),
        s.subrange(p, p + w.len()) == w,
        0 <= a <= b <= w.len(),
    ensures
        s.subrange(p + a, p + b) == w.subrange(a, b),
        a < w.len() ==> s[p + a] == w[a],
{
    assert(s.subrange(p + a, p + b) =~= w.subrange(a, b)) by {
        assert forall|i: int| 0 <= i < b - a implies #[trigger] s.subrange(p + a, p + b)[i]
            == w.subrange(a, b)[i] by {
            assert(s.subrange(p, p + w.len())[a + i] == s[p + a + i]);
        }
    }
    if a < w.len() {
        assert(s.subrange(p, p + w.len())[a] == s[p + a]);
    }
}

/// A key made of letters and digits passes the key check and reads back.
proof fn lemma_key_region(s: Seq<u8>, ks: int, k: Seq<char>)
    requires
        0 <= ks,
        all_alnum_chars(k),
        ks + encode_utf8(k).len() <= s.len(),
        s.subrange(ks, ks + encode_utf8(k).len()) == encode_utf8(k),
    ensures
        first_fault(s, ks, ks + encode_utf8(k).len(), false) == ks + encode_utf8(k).len(),
        ascii_chars(s.subrange(ks, ks + encode_utf8(k).len())) == k,
{
    let kb = encode_utf8(k);
    let ke = ks + kb.len();
    lemma_alnum_chars_utf8(k);
    assert forall|i: int| ks <= i < ke implies region_byte_ok(#[trigger] s[i], false) by {
        assert(s[i] == s.subrange(ks, ke)[i - ks]);
        assert(is_alnum(kb[i - ks]));
    }
    lemma_first_fault_clean(s, ks, ke, false);
}

/// A non-negative integer's text passes the digit check and reads back.
proof fn lemma_integer_region(s: Seq<u8>, ke: int, i: i32)
    requires
        0 <= ke,
        i >= 0,
        ke + int_text(i as int).len() <= s.len(),
        s.subrange(ke, ke + int_text(i as int).len()) == int_text(i as int),
    ensures
        first_fault(s, ke, ke + int_text(i as int).len(), true) == ke + int_text(i as int).len(),
        int_text(i as int).len() > 0,
        digits_value(s.subrange(ke, ke + int_text(i as int).len())) == i,
{
    let t = int_text(i as int);
    let ve = ke + t.len();
    assert(t == decimal(i as nat));
    lemma_digits_value_decimal(i as nat);
    lemma_decimal_digits(i as nat);
    assert forall|q: int| ke <= q < ve implies region_byte_ok(#[trigger] s[q], true) by {
        assert(s[q] == s.subrange(ke, ve)[q - ke]);
        assert(is_digit(t[q - ke]));
    }
    lemma_first_fault_clean(s, ke, ve, true);
}

/// The encoding of an encodable pair, wherever it stands, reads back as that pair.
proof fn lemma_scan_encoded_entry(s: Seq<u8>, p: int, e: EntryModel)
    requires
        0 <= p,
        encodable_entry(e),
        p + encode_entry(e.0, e.1).len() <= s.len(),
        s.subrange(p, p + encode_entry(e.0, e.1).len()) == encode_entry(e.0, e.1),
    ensures
        scan_entry(s, p) == Scan::Entry(e.0, e.1, p + encode_entry(e.0, e.1).len()),
{
    let (k, v) = e;
    let enc = encode_entry(k, v);
    let kb = encode_utf8(k);
    let t = entry_value_bytes(v);
    let tag = entry_tag(v);
    let d1 = decimal(kb.len());
    let d2 = decimal(t.len());
    let o2: int = 1int + d1.len();
    let o4: int = o2 + 1 + d2.len();
    let o6: int = o4 + 1 + kb.len();
    lemma_entry_layout(k, v);
    lemma_alnum_chars_utf8(k);
    lemma_decimal_digits(kb.len());
    lemma_decimal_digits(t.len());
    lemma_window(s, p, enc, 0, 0);
    lemma_window(s, p, enc, 1, o2);
    lemma_window(s, p, enc, o2, o2);
    lemma_window(s, p, enc, o2 + 1, o4);
    lemma_window(s, p, enc, o4, o4);
    lemma_window(s, p, enc, o4 + 1, o6);
    lemma_window(s, p, enc, o6, o6 + t.len());
    assert(t.len() <= u32::MAX) by {
        if let ValueModel::Integer(i) = v {
            lemma_int_text_short(i);
        }
    }
    lemma_length_field(s, p + 1, kb.len());
    lemma_length_field(s, p + o2 + 1, t.len());
    let ks = p + o4 + 1;
    let ke = p + o6;
    lemma_key_region(s, ks, k);
    if let ValueModel::Integer(i) = v {
        lemma_integer_region(s, ke, i);
        assert(scan_value(s, tag, k, ke, t.len()) == Scan::Entry(k, v, ke + t.len()));
    } else {
        assert(scan_value(s, tag, k, ke, t.len()) == Scan::Entry(k, v, ke + t.len()));
    }
    assert(scan_body(s, tag, ks, kb.len(), t.len()) == Scan::Entry(k, v, ke + t.len()));
}

proof fn lemma_int_text_short(i: i32)
    requires
        i >= 0,
    ensures
        int_text(i as int).len() <= 10,
{
    reveal_with_fuel(pow10, 11);
    assert(pow10(10) == 10000000000);
    lemma_decimal_short(i as nat, 10);
}

proof fn lemma_decimal_short(n: nat, d: nat)
    requires
        1 <= d <= 10,
        n < pow10(d),
    ensures
        decimal(n).len() <= d,
    decreases d,
{
    if n >= 10 {
        assert(n / 10 < pow10((d - 1) as nat)) by {
            assert(d >= 2) by {
                if d == 1 {
                    reveal_with_fuel(pow10, 2);
                    assert(pow10(1) == 10);
                }
            }
            assert(pow10(d) == 10 * pow10((d - 1) as nat));
        }
        lemma_decimal_short(n / 10, (d - 1) as nat);
    }
}

spec fn pow10(d: nat) -> nat
    decreases d,
{
    if d == 0 {
        1
    } else {
        10 * pow10((d - 1) as nat)
    }
}

/// Prepending a pair prepends its encoding.
proof fn lemma_encode_cons(e: EntryModel, rest: Seq<EntryModel>)
    ensures
        encode_entries(seq![e] + rest) == encode_entry(e.0, e.1) + encode_entries(rest),
    decreases rest.len(),
{
    if rest.len() == 0 {
        let l = seq![e] + rest;
        assert(l.drop_last() =~= Seq::<EntryModel>::empty());
        assert(l.last() == e);
        assert(encode_entries(Seq::<EntryModel>::empty()) == Seq::<u8>::empty());
        assert(encode_entries(l) == encode_entries(l.drop_last()) + encode_entry(e.0, e.1));
        assert(encode_entries(l) =~= encode_entry(e.0, e.1) + encode_entries(rest));
    } else {
        let l = seq![e] + rest;
        assert(l.drop_last() =~= seq![e] + rest.drop_last());
        lemma_encode_cons(e, rest.drop_last());
        assert(encode_entries(l) =~= encode_entry(e.0, e.1) + encode_entries(rest));
    }
}

/// Decoding the encodings of `rest`, after `acc` has been decoded, adds `rest`.
proof fn lemma_parse_encoded(
    s: Seq<u8>,
    pos: int,
    acc: Seq<EntryModel>,
    rest: Seq<EntryModel>,
    tail: Seq<u8>,
)
    requires
        0 <= pos <= s.len(),
        s.subrange(pos, s.len() as int) == encode_entries(rest) + tail,
        encodable(acc + rest),
        ends_data(tail),
    ensures
        parse_from(s, pos, acc) == (if (acc + rest).len() > 0 {
            DataOutcome::Decoded(acc + rest)
        } else if tail.len() == 0 {
            DataOutcome::Refused(DecodeError::MissingData)
        } else {
            DataOutcome::Refused(DecodeError::EmptyData)
        }),
    decreases rest.len(),
{
    let all = acc + rest;
    if rest.len() == 0 {
        assert(acc + rest =~= acc);
        assert(encode_entries(rest) =~= Seq::<u8>::empty());
        if tail.len() == 0 {
            assert(s.subrange(pos, s.len() as int).len() == 0);
        } else {
            assert(s[pos] == s.subrange(pos, s.len() as int)[0]);
        }
    } else {
        let e = rest[0];
        let more = rest.drop_first();
        assert(rest =~= seq![e] + more);
        lemma_encode_cons(e, more);
        let enc = encode_entry(e.0, e.1);
        let n = pos + enc.len();
        let whole = s.subrange(pos, s.len() as int);
        assert(whole == enc + encode_entries(more) + tail);
        assert(n <= s.len());
        assert(all[acc.len() as int] == e);
        assert(encodable_entry(e));
        assert(s.subrange(pos, n) =~= enc) by {
            assert forall|i: int| 0 <= i < enc.len() implies #[trigger] s.subrange(pos, n)[i]
                == enc[i] by {
                assert(s.subrange(pos, n)[i] == whole[i]);
                assert(whole[i] == enc[i]);
            }
        }
        lemma_scan_encoded_entry(s, pos, e);
        assert(!has_key(acc, e.0)) by {
            if has_key(acc, e.0) {
                let j = key_index(acc, e.0);
                assert(all[j] == acc[j]);
                assert(all[j].0 == all[acc.len() as int].0);
            }
        }
        assert(insert_entry(acc, e.0, e.1) == acc.push(e));
        assert(acc.push(e) + more =~= all);
        assert(s.subrange(n, s.len() as int) =~= encode_entries(more) + tail) by {
            assert forall|i: int| 0 <= i < s.len() - n implies #[trigger] s.subrange(
                n,
                s.len() as int,
            )[i] == (encode_entries(more) + tail)[i] by {
                assert(s.subrange(n, s.len() as int)[i] == whole[enc.len() + i]);
            }
        }
        lemma_parse_encoded(s, n, acc.push(e), more, tail);
    }
}

/// Decoding encoded data gives it back: for every non-empty encodable `es`, and
/// whatever follows that ends the data.
pub proof fn law_data_roundtrip(es: Seq<EntryModel>, tail: Seq<u8>)
    requires
        encodable(es),
        es.len() > 0,
        ends_data(tail),
    ensures
        decode_data_spec(encode_entries(es) + tail) == DataOutcome::Decoded(es),
{
    let s = encode_entries(es) + tail;
    let empty = Seq::<EntryModel>::empty();
    assert(empty + es =~= es);
    assert(s.subrange(0, s.len() as int) =~= s);
    lemma_parse_encoded(s, 0, empty, es, tail);
}

/// Decoding an encoded message gives back its command and data, for every
/// command of three bytes and encodable data; empty data needs a byte after it
/// that ends the data.
pub proof fn law_message_roundtrip(command: Seq<char>, es: Seq<EntryModel>, tail: Seq<u8>)
    requires
        encode_utf8(command).len() == 3,
        encodable(es),
        ends_data(tail),
        es.len() > 0 || tail.len() > 0,
    ensures
        message_outcome(encode_message_bytes(command, es) + tail, command)
            == MessageOutcome::Decoded(command, es),
{
    let s = encode_message_bytes(command, es) + tail;
    let c = encode_utf8(command);
    assert(s[3] == 13 && s[4] == 10) by {
        assert(s[3] == (c + seq![13u8, 10u8])[3]);
        assert(s[4] == (c + seq![13u8, 10u8])[4]);
    }
    assert(s.skip(5) =~= encode_entries(es) + tail);
    let empty = Seq::<EntryModel>::empty();
    let d = s.skip(5);
    assert(empty + es =~= es);
    assert(d.subrange(0, d.len() as int) =~= d);
    lemma_parse_encoded(d, 0, empty, es, tail);
}

/// Decoding data only ever produces data that encodes and decodes back.
proof fn lemma_parse_encodable(s: Seq<u8>, pos: int, acc: Seq<EntryModel>)
    requires
        encodable(acc),
    ensures
        parse_from(s, pos, acc) matches DataOutcome::Decoded(es) ==> encodable(es),
    decreases s.len() - pos,
{
    match scan_entry(s, pos) {
        Scan::Entry(k, v, n) => {
            if pos < n <= s.len() {
                lemma_scan_entry_encodable(s, pos);
                lemma_insert_encodable(acc, k, v);
                lemma_parse_encodable(s, n, insert_entry(acc, k, v));
            }
        },
        _ => {},
    }
}

proof fn lemma_insert_encodable(acc: Seq<EntryModel>, k: Seq<char>, v: ValueModel)
    requires
        encodable(acc),
        encodable_entry((k, v)),
    ensures
        encodable(insert_entry(acc, k, v)),
{
    crate::value::lemma_insert_distinct(acc, k, v);
    let r = insert_entry(acc, k, v);
    assert forall|i: int| 0 <= i < r.len() implies encodable_entry(#[trigger] r[i]) by {
        if has_key(acc, k) {
            if i != key_index(acc, k) {
                assert(r[i] == acc[i]);
            }
        } else if i < acc.len() {
            assert(r[i] == acc[i]);
        }
    }
}

proof fn lemma_scan_entry_encodable(s: Seq<u8>, pos: int)
    requires
        scan_entry(s, pos) is Entry,
    ensures
        scan_entry(s, pos) matches Scan::Entry(k, v, _) ==> encodable_entry((k, v)),
{
    if let Scan::Entry(k, v, _) = scan_entry(s, pos) {
        let b = s[pos];
        lemma_length_field_ends_after(s, pos + 1);
        if let LengthField::Length(kl, j) = length_field(s, pos + 1) {
            lemma_length_field_ends_after(s, j);
            if let LengthField::Length(vl, ks) = length_field(s, j) {
                let ke = ks + kl;
                lemma_first_fault_all_ok(s, ks, ke, false);
                let kbytes = s.subrange(ks, ke);
                assert(all_alnum(kbytes)) by {
                    assert forall|i: int| 0 <= i < kbytes.len() implies is_alnum(
                        #[trigger] kbytes[i],
                    ) by {
                        assert(kbytes[i] == s[ks + i]);
                        assert(region_byte_ok(s[ks + i], false));
                    }
                }
                crate::text::lemma_alnum_bytes_chars(kbytes);
            }
        }
    }
}

proof fn lemma_digit_run_end_ge(s: Seq<u8>, j: int)
    ensures
        digit_run_end(s, j) >= j,
    decreases s.len() - j,
{
    if 0 <= j < s.len() && is_digit(s[j]) {
        lemma_digit_run_end_ge(s, j + 1);
    }
}

proof fn lemma_length_field_ends_after(s: Seq<u8>, j: int)
    ensures
        length_field(s, j) matches LengthField::Length(_, e) ==> e > j,
{
    lemma_digit_run_end_ge(s, j);
}

proof fn lemma_first_fault_all_ok(s: Seq<u8>, from: int, to: int, digits: bool)
    requires
        0 <= from,
        first_fault(s, from, to, digits) >= to,
    ensures
        to <= s.len() || from >= to,
        forall|i: int| from <= i < to ==> region_byte_ok(#[trigger] s[i], digits),
    decreases to - from,
{
    if from < to {
        lemma_first_fault_all_ok(s, from + 1, to, digits);
    }
}

/// Whatever decoding data produces can be encoded and decoded back.
pub proof fn law_decoded_data_encodable(s: Seq<u8>)
    ensures
        decode_data_spec(s) matches DataOutcome::Decoded(es) ==> encodable(es) && es.len() > 0,
{
    let empty = Seq::<EntryModel>::empty();
    assert(encodable(empty));
    lemma_parse_encodable(s, 0, empty);
    lemma_parse_nonempty(s, 0, empty);
}

proof fn lemma_parse_nonempty(s: Seq<u8>, pos: int, acc: Seq<EntryModel>)
    requires
        distinct_keys(acc),
    ensures
        parse_from(s, pos, acc) matches DataOutcome::Decoded(es) ==> es.len() > 0,
    decreases s.len() - pos,
{
    match scan_entry(s, pos) {
        Scan::Entry(k, v, n) => {
            if pos < n <= s.len() {
                crate::value::lemma_insert_distinct(acc, k, v);
                lemma_parse_nonempty(s, n, insert_entry(acc, k, v));
            }
        },
        _ => {},
    }
}

/// A run of digits that ends inside `w` ends at the same place however `w`
/// goes on.
proof fn lemma_digit_run_extend(w: Seq<u8>, t: Seq<u8>, j: int)
    requires
        0 <= j,
        digit_run_end(w, j) < w.len(),
    ensures
        digit_run_end(w + t, j) == digit_run_end(w, j),
    decreases w.len() - j,
{
    let s = w + t;
    if j < w.len() {
        assert(s[j] == w[j]);
        if is_digit(w[j]) {
            lemma_digit_run_extend(w, t, j + 1);
        }
    }
}

/// A length field that `w` holds reads the same however `w` goes on.
proof fn lemma_length_field_extend(w: Seq<u8>, t: Seq<u8>, j: int)
    requires
        0 <= j,
        length_field(w, j) is Length,
    ensures
        length_field(w + t, j) == length_field(w, j),
{
    let s = w + t;
    lemma_digit_run_end_ge(w, j);
    let k = digit_run_end(w, j);
    lemma_digit_run_extend(w, t, j);
    assert(s[k] == w[k]);
    assert(s.subrange(j, k) =~= w.subrange(j, k));
}

/// Checking a region that lies inside `w` gives the same however `w` goes on.
proof fn lemma_first_fault_extend(w: Seq<u8>, t: Seq<u8>, from: int, to: int, digits: bool)
    requires
        0 <= from,
        to <= w.len(),
    ensures
        first_fault(w + t, from, to, digits) == first_fault(w, from, to, digits),
    decreases to - from,
{
    if from < to {
        assert((w + t)[from] == w[from]);
        lemma_first_fault_extend(w, t, from + 1, to, digits);
    }
}

/// A pair that `w` holds in full reads the same however `w` goes on.
proof fn lemma_scan_entry_extend(w: Seq<u8>, t: Seq<u8>, i: int)
    requires
        0 <= i < w.len(),
        scan_entry(w, i) matches Scan::Entry(_, _, n) && n <= w.len(),
    ensures
        scan_entry(w + t, i) == scan_entry(w, i),
{
    let s = w + t;
    assert(s[i] == w[i]);
    let b = w[i];
    lemma_length_field_ends_after(w, i + 1);
    lemma_length_field_extend(w, t, i + 1);
    if let LengthField::Length(kl, j) = length_field(w, i + 1) {
        lemma_length_field_ends_after(w, j);
        lemma_length_field_extend(w, t, j);
        if let LengthField::Length(vl, ks) = length_field(w, j) {
            lemma_digit_run_end_ge(w, j);
            assert(ks <= w.len());
            let ke = ks + kl;
            let p = first_fault(w, ks, ke, false);
            lemma_first_fault_all_ok(w, ks, ke, false);
            assert(ke <= w.len());
            lemma_first_fault_extend(w, t, ks, ke, false);
            assert(s.subrange(ks, ke) =~= w.subrange(ks, ke));
            let ve = ke + vl;
            assert(ve <= w.len());
            assert(s.subrange(ke, ve) =~= w.subrange(ke, ve));
            lemma_first_fault_extend(w, t, ke, ve, true);
            assert(scan_value(s, b, ascii_chars(s.subrange(ks, ke)), ke, vl) == scan_value(
                w,
                b,
                ascii_chars(w.subrange(ks, ke)),
                ke,
                vl,
            ));
            assert(scan_body(s, b, ks, kl, vl) == scan_body(w, b, ks, kl, vl));
        }
    }
}

/// Where decoding `w` from `i` on succeeds, decoding `w`, a byte that ends the
/// data, and anything after, gives the same from `i` on.
proof fn lemma_parse_terminated(w: Seq<u8>, b: u8, rest: Seq<u8>, i: int, acc: Seq<EntryModel>)
    requires
        0 <= i <= w.len(),
        b == 0 || b == 13 || b == 10,
        parse_from(w, i, acc) is Decoded,
    ensures
        parse_from(w + seq![b] + rest, i, acc) == parse_from(w, i, acc),
    decreases w.len() - i,
{
    let s = w + seq![b] + rest;
    let t = seq![b] + rest;
    assert(s =~= w + t);
    if i == w.len() {
        assert(s[i] == b);
    } else {
        assert(s[i] == w[i]);
        match scan_entry(w, i) {
            Scan::Entry(k, v, n) => {
                lemma_scan_entry_extend(w, t, i);
                lemma_parse_terminated(w, b, rest, n, insert_entry(acc, k, v));
            },
            _ => {},
        }
    }
}

/// Decoding data never looks past a byte that ends it: where `w` decodes, so
/// does `w`, then a zero byte, `\r` or `\n`, then anything, to the same.
pub proof fn law_bytes_after_terminator_unread(w: Seq<u8>, b: u8, rest: Seq<u8>)
    requires
        decode_data_spec(w) is Decoded,
        b == 0 || b == 13 || b == 10,
    ensures
        decode_data_spec(w + seq![b] + rest) == decode_data_spec(w),
{
    lemma_parse_terminated(w, b, rest, 0, Seq::<EntryModel>::empty());
}

} // verus!
