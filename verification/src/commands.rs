//! How the server answers a request.
//!
//! Answering alternates decisions with work done elsewhere: checking a
//! signature, looking a key up in the key store, opening a session. Each
//! function here takes what is known so far and says what to do next.
use vstd::prelude::*;
use vstd::utf8::*;

use crate::keys::{cert_parses, parse_cert, Certificate, KeyIdentity};
use crate::protocol::{MessageCommand, encode_message, encode_message_bytes, error_message, error_message_bytes};
use crate::text::{lemma_encode_utf8_concat, push_str_bytes, str_eq};
use crate::value::{has_key, lookup, EntryModel, MessageData, Value, ValueModel};

verus! {

broadcast use vstd::utf8::group_utf8_lib;

/// The text that reports a missing argument.
pub open spec fn missing_text(key: Seq<char>) -> Seq<char> {
    "Missing value '"@ + key + "' required for this command"@
}

/// `keys[j]` is the first of `keys` that `es` lacks.
pub open spec fn first_missing_at(es: Seq<EntryModel>, keys: Seq<Seq<char>>, j: int) -> bool {
    &&& 0 <= j < keys.len()
    &&& !has_key(es, keys[j])
    &&& forall|i: int| 0 <= i < j ==> has_key(es, #[trigger] keys[i])
}

/// The views of a list of string slices.
pub open spec fn str_views(keys: Seq<&str>) -> Seq<Seq<char>> {
    keys.map_values(|k: &str| k@)
}

/// Checks that `data` has every key of `keys`; otherwise reports the first one
/// that it lacks.
pub fn has_required(data: &MessageData, keys: Vec<&str>) -> (r: Result<(), String>)
    ensures
        r is Ok <==> forall|i: int| 0 <= i < keys@.len() ==> has_key(data@, #[trigger] keys@[i]@),
        r matches Err(m) ==> exists|j: int|
            first_missing_at(data@, str_views(keys@), j) && m@ == missing_text(keys@[j]@),
{
    let n = keys.len();
    for i in 0..n
        invariant
            n == keys@.len(),
            forall|j: int| 0 <= j < i ==> has_key(data@, #[trigger] keys@[j]@),
    {
        let key: &str = keys[i];
        if !data.contains_key(key) {
            let mut m = "Missing value '".to_owned();
            m.append(key);
            m.append("' required for this command");
            proof {
                let ks = str_views(keys@);
                assert(ks[i as int] == keys@[i as int]@);
                assert forall|j: int| 0 <= j < i implies has_key(data@, #[trigger] ks[j]) by {
                    assert(ks[j] == keys@[j]@);
                }
                assert(first_missing_at(data@, ks, i as int));
            }
            return Err(m);
        }
    }
    Ok(())
}

/// The UTF-8 bytes of the characters `s`.
pub open spec fn text_bytes(s: Seq<char>) -> Seq<u8> {
    encode_utf8(s)
}

/// What to do with a request.
pub enum Handling {
    /// Send these bytes back; the request is done.
    Reply(Vec<u8>),
    /// Check that `signed` is signed by `cert` and take out its content;
    /// where that succeeds, answer with `registration_accepted`.
    VerifyRegistration { cert: Certificate, signed: Vec<u8> },
    /// Look `pubkey` up in the key store, and continue with
    /// `authenticate_known` and the session key `sd_key`.
    LookUpKey { pubkey: Certificate, sd_key: Vec<u8> },
}

/// What the model says to do with a request; a certificate is known by the
/// bytes it was read from.
pub enum HandlingModel {
    Reply(Seq<u8>),
    /// The certificate's bytes, and the signed user name.
    VerifyRegistration(Option<Seq<u8>>, Seq<u8>),
    /// The public key's bytes, and the session key.
    LookUpKey(Option<Seq<u8>>, Seq<u8>),
}

impl Handling {
    pub open spec fn model(&self) -> HandlingModel {
        match self {
            Handling::Reply(b) => HandlingModel::Reply(b@),
            Handling::VerifyRegistration { cert, signed } => HandlingModel::VerifyRegistration(
                cert@.source,
                signed@,
            ),
            Handling::LookUpKey { pubkey, sd_key } => HandlingModel::LookUpKey(
                pubkey@.source,
                sd_key@,
            ),
        }
    }
}

/// The bytes stored under `k`, where `k` holds bytes.
pub open spec fn data_under(es: Seq<EntryModel>, k: Seq<char>) -> Seq<u8> {
    lookup(es, k)->Some_0->Data_0
}

pub open spec fn username_key() -> Seq<char> {
    seq!['u', 's', 'e', 'r', 'n', 'a', 'm', 'e']
}

pub open spec fn pubkey_key() -> Seq<char> {
    seq!['p', 'u', 'b', 'k', 'e', 'y']
}

pub open spec fn signed_key() -> Seq<char> {
    seq!['s', 'i', 'g', 'n', 'e', 'd']
}

pub open spec fn sd_key_key() -> Seq<char> {
    seq!['s', 'd', '_', 'k', 'e', 'y']
}

/// The arguments of a registration: user name, public key, signed user name.
pub open spec fn register_keys() -> Seq<Seq<char>> {
    seq![username_key(), pubkey_key(), signed_key()]
}

/// The arguments of an authentication: public key, session key.
pub open spec fn authenticate_keys() -> Seq<Seq<char>> {
    seq![pubkey_key(), sd_key_key()]
}

/// A request whose arguments, where all of them are there, hold bytes.
pub open spec fn arguments_hold_bytes(es: Seq<EntryModel>, keys: Seq<Seq<char>>) -> bool {
    (forall|i: int| 0 <= i < keys.len() ==> has_key(es, #[trigger] keys[i])) ==> forall|i: int|
        0 <= i < keys.len() ==> (#[trigger] lookup(es, keys[i]))->Some_0 is Data
}

/// Where an authentication request has a `pubkey` and an `sd_key` that hold
/// bytes, and the `pubkey` bytes read as a certificate, `r` looks up the
/// certificate read from the `pubkey` bytes and passes on the `sd_key` bytes as
/// they are.
pub open spec fn looks_up_pubkey(es: Seq<EntryModel>, r: Handling) -> bool {
    lookup(es, pubkey_key()) matches Some(ValueModel::Data(p)) ==> (lookup(es, sd_key_key()) matches Some(
        ValueModel::Data(s),
    ) ==> (cert_parses(p) ==> (r matches Handling::LookUpKey { pubkey, sd_key } && pubkey@.source
        == Some(p) && pubkey@.key == KeyIdentity::ReadFrom(p) && sd_key@ == s)))
}

/// Where a registration request has a `username`, a `pubkey` and a `signed`
/// that hold bytes, and the `pubkey` bytes read as a certificate, `r` checks the
/// `signed` bytes, as they are, against the certificate read from the `pubkey`
/// bytes.
pub open spec fn verifies_with_pubkey(es: Seq<EntryModel>, r: Handling) -> bool {
    lookup(es, username_key()) matches Some(ValueModel::Data(_)) ==> (lookup(es, pubkey_key()) matches Some(
        ValueModel::Data(p),
    ) ==> (lookup(es, signed_key()) matches Some(ValueModel::Data(g)) ==> (cert_parses(p) ==> (r matches Handling::VerifyRegistration { cert, signed } && cert@.source == Some(p)
        && cert@.key == KeyIdentity::ReadFrom(p) && signed@ == g))))
}

/// What answering a registration does.
pub open spec fn register_model(es: Seq<EntryModel>) -> HandlingModel {
    let keys = register_keys();
    if exists|j: int| first_missing_at(es, keys, j) {
        let j = choose|j: int| first_missing_at(es, keys, j);
        HandlingModel::Reply(text_bytes(missing_text(keys[j])))
    } else if !cert_parses(data_under(es, pubkey_key())) {
        HandlingModel::Reply(text_bytes("-REG\r\n"@))
    } else {
        HandlingModel::VerifyRegistration(
            Some(data_under(es, pubkey_key())),
            data_under(es, signed_key()),
        )
    }
}

/// What answering an authentication does, up to looking the key up.
pub open spec fn authenticate_model(es: Seq<EntryModel>) -> HandlingModel {
    let keys = authenticate_keys();
    if exists|j: int| first_missing_at(es, keys, j) {
        let j = choose|j: int| first_missing_at(es, keys, j);
        HandlingModel::Reply(text_bytes(missing_text(keys[j])))
    } else if !cert_parses(data_under(es, pubkey_key())) {
        HandlingModel::Reply(error_message_bytes("AUT"@, "Invalid pubkey"@))
    } else {
        HandlingModel::LookUpKey(Some(data_under(es, pubkey_key())), data_under(es, sd_key_key()))
    }
}

/// The answer to a request with an unknown command.
pub open spec fn unknown_command_bytes(command: Seq<char>) -> Seq<u8> {
    text_bytes(seq!['-'] + command + " Unknown command\r\n"@)
}

/// What answering a request does.
pub open spec fn command_model(command: Seq<char>, es: Seq<EntryModel>) -> HandlingModel {
    if command == "REG"@ {
        register_model(es)
    } else if command == "AUT"@ {
        authenticate_model(es)
    } else {
        HandlingModel::Reply(unknown_command_bytes(command))
    }
}

/// The UTF-8 bytes of a string.
fn string_bytes(s: &String) -> (r: Vec<u8>)
    ensures
        r@ == text_bytes(s@),
{
    vstd::slice::slice_to_vec(s.as_str().as_bytes())
}

/// The bytes stored under `key`, which must be there and hold bytes.
fn argument_bytes(data: &MessageData, key: &str) -> (r: Vec<u8>)
    requires
        has_key(data@, key@),
        lookup(data@, key@)->Some_0 is Data,
    ensures
        r@ == data_under(data@, key@),
{
    match data.get(key) {
        Some(v) => v.data().clone(),
        None => {
            proof {
                assert(false);
            }
            Vec::new()
        },
    }
}

/// Checks the arguments named by `keys` (views `ks`); the reply where one is missing.
fn check_arguments(data: &MessageData, keys: Vec<&str>, Ghost(ks): Ghost<Seq<Seq<char>>>) -> (r: Option<
    Vec<u8>,
>)
    requires
        str_views(keys@) == ks,
    ensures
        r is None <==> !exists|j: int| first_missing_at(data@, ks, j),
        r matches Some(b) ==> b@ == text_bytes(missing_text(ks[choose|j: int| first_missing_at(data@, ks, j)])),
        r is None ==> forall|i: int| 0 <= i < ks.len() ==> has_key(data@, #[trigger] ks[i]),
{
    let n = keys.len();
    assert(ks.len() == n);
    match has_required(data, keys) {
        Ok(()) => {
            assert forall|i: int| 0 <= i < ks.len() implies has_key(data@, #[trigger] ks[i]) by {
                assert(ks[i] == keys@[i]@);
            }
            None
        },
        Err(m) => {
            proof {
                let j = choose|j: int| first_missing_at(data@, ks, j) && m@ == missing_text(keys@[j]@);
                let c = choose|j: int| first_missing_at(data@, ks, j);
                if c < j {
                    assert(has_key(data@, ks[c]));
                } else if j < c {
                    assert(has_key(data@, ks[j]));
                }
                assert(ks[j] == keys@[j]@);
            }
            Some(string_bytes(&m))
        },
    }
}

/// Answers a registration: checks the arguments and the public key; where both
/// are sound, what remains is to check the signed user name.
pub fn register(data: MessageData) -> (r: Handling)
    requires
        arguments_hold_bytes(data@, register_keys()),
    ensures
        r.model() == register_model(data@),
        verifies_with_pubkey(data@, r),
{
    let keys: Vec<&str> = vec!["username", "pubkey", "signed"];
    proof {
        reveal_strlit("username");
        reveal_strlit("pubkey");
        reveal_strlit("signed");
        assert(keys@[0]@ == username_key());
        assert(keys@[1]@ == pubkey_key());
        assert(keys@[2]@ == signed_key());
        assert(str_views(keys@) =~= register_keys());
    }
    if let Some(b) = check_arguments(&data, keys, Ghost(register_keys())) {
        return Handling::Reply(b);
    }
    proof {
        assert(has_key(data@, register_keys()[0]));
        assert(has_key(data@, register_keys()[1]));
        assert(has_key(data@, register_keys()[2]));
        assert(lookup(data@, register_keys()[0])->Some_0 is Data);
        assert(lookup(data@, register_keys()[1])->Some_0 is Data);
        assert(lookup(data@, register_keys()[2])->Some_0 is Data);
    }
    let pubkey = argument_bytes(&data, "pubkey");
    let signed = argument_bytes(&data, "signed");
    match parse_cert(pubkey.as_slice()) {
        Err(_) => {
            let reply = "-REG\r\n";
            Handling::Reply(vstd::slice::slice_to_vec(reply.as_bytes()))
        },
        Ok(cert) => Handling::VerifyRegistration { cert, signed },
    }
}

/// The answer to a registration whose signed user name checked out.
pub fn registration_accepted() -> (r: Vec<u8>)
    ensures
        r@ == text_bytes("+REG\r\n"@),
{
    vstd::slice::slice_to_vec("+REG\r\n".as_bytes())
}

/// Answers an authentication: checks the arguments and the public key; where
/// both are sound, what remains is to look the key up.
pub fn authenticate(data: MessageData) -> (r: Handling)
    requires
        arguments_hold_bytes(data@, authenticate_keys()),
    ensures
        r.model() == authenticate_model(data@),
        looks_up_pubkey(data@, r),
{
    let keys: Vec<&str> = vec!["pubkey", "sd_key"];
    proof {
        reveal_strlit("pubkey");
        reveal_strlit("sd_key");
        assert(keys@[0]@ == pubkey_key());
        assert(keys@[1]@ == sd_key_key());
        assert(str_views(keys@) =~= authenticate_keys());
    }
    if let Some(b) = check_arguments(&data, keys, Ghost(authenticate_keys())) {
        return Handling::Reply(b);
    }
    proof {
        assert(has_key(data@, authenticate_keys()[0]));
        assert(has_key(data@, authenticate_keys()[1]));
        assert(lookup(data@, authenticate_keys()[0])->Some_0 is Data);
        assert(lookup(data@, authenticate_keys()[1])->Some_0 is Data);
    }
    let pubkey = argument_bytes(&data, "pubkey");
    let sd_key = argument_bytes(&data, "sd_key");
    match parse_cert(pubkey.as_slice()) {
        Err(_) => Handling::Reply(error_message("AUT", "Invalid pubkey")),
        Ok(cert) => Handling::LookUpKey { pubkey: cert, sd_key },
    }
}

/// What to do once the public key has been looked up.
pub enum SessionStep {
    /// Send these bytes back; the request is done.
    Reply(Vec<u8>),
    /// Open a session for the public key, make a session key, and answer with
    /// `session_reply`.
    OpenSession,
}

/// What the model says to do once the public key has been looked up.
pub open spec fn authenticate_known_model(known: bool, sd_key: Seq<u8>) -> Option<Seq<u8>> {
    if !known {
        Some(error_message_bytes("AUT"@, "Pubkey is not in database"@))
    } else if !cert_parses(sd_key) {
        Some(error_message_bytes("AUT"@, "Invalid sd_key"@))
    } else {
        None
    }
}

/// Continues an authentication: the public key is `known` to the key store or
/// not, and the client sent `sd_key` as its session key.
pub fn authenticate_known(known: bool, sd_key: &[u8]) -> (r: SessionStep)
    ensures
        match authenticate_known_model(known, sd_key@) {
            Some(b) => r matches SessionStep::Reply(x) && x@ == b,
            None => r is OpenSession,
        },
{
    if !known {
        return SessionStep::Reply(error_message("AUT", "Pubkey is not in database"));
    }
    match parse_cert(sd_key) {
        Err(_) => SessionStep::Reply(error_message("AUT", "Invalid sd_key")),
        Ok(_) => SessionStep::OpenSession,
    }
}

/// The key under which the session reply carries the server's session key.
pub open spec fn cd_key_key() -> Seq<char> {
    seq!['c', 'd', '_', 'k', 'e', 'y']
}

/// The answer that completes an authentication: `+AUT` with the server's
/// session key, armored, under `cd_key`.
pub fn session_reply(cd_key: Vec<u8>) -> (r: Vec<u8>)
    ensures
        r@ == encode_message_bytes("+AUT"@, seq![(cd_key_key(), ValueModel::Data(cd_key@))]),
{
    let ghost armor = cd_key@;
    let key = "cd_key".to_owned();
    proof {
        reveal_strlit("cd_key");
        assert(key@ =~= cd_key_key());
    }
    let mut data = MessageData::new();
    data.insert(key, Value::Data(cd_key));
    assert(data@ =~= seq![(cd_key_key(), ValueModel::Data(armor))]);
    encode_message("+AUT", data)
}

/// Whether each argument named by `keys` (views `ks`), where all are there, holds bytes.
fn check_bytes(data: &MessageData, keys: Vec<&str>, Ghost(ks): Ghost<Seq<Seq<char>>>) -> (r: bool)
    requires
        str_views(keys@) == ks,
    ensures
        r == arguments_hold_bytes(data@, ks),
{
    let n = keys.len();
    assert(ks.len() == n);
    for i in 0..n
        invariant
            n == keys@.len(),
            ks == str_views(keys@),
            forall|j: int| 0 <= j < i ==> has_key(data@, #[trigger] ks[j]),
    {
        if !data.contains_key(keys[i]) {
            assert(!has_key(data@, ks[i as int]));
            return true;
        }
    }
    for i in 0..n
        invariant
            n == keys@.len(),
            ks == str_views(keys@),
            forall|j: int| 0 <= j < n ==> has_key(data@, #[trigger] ks[j]),
            forall|j: int| 0 <= j < i ==> (#[trigger] lookup(data@, ks[j]))->Some_0 is Data,
    {
        assert(has_key(data@, ks[i as int]));
        match data.get(keys[i]) {
            Some(Value::Data(_)) => {},
            _ => {
                return false;
            },
        }
    }
    true
}

/// Whether `command_handler` can answer this request: in a registration or an
/// authentication that has all its arguments, each of them holds bytes.
pub fn handler_can_answer(message: &MessageCommand) -> (r: bool)
    ensures
        r == ((message.command@ == "REG"@ ==> arguments_hold_bytes(message.data@, register_keys()))
            && (message.command@ == "AUT"@ ==> arguments_hold_bytes(
            message.data@,
            authenticate_keys(),
        ))),
{
    let command: &str = message.command.as_str();
    if str_eq(command, "REG") {
        let keys: Vec<&str> = vec!["username", "pubkey", "signed"];
        proof {
            reveal_strlit("username");
            reveal_strlit("pubkey");
            reveal_strlit("signed");
            assert(keys@[0]@ == username_key());
            assert(keys@[1]@ == pubkey_key());
            assert(keys@[2]@ == signed_key());
            assert(str_views(keys@) =~= register_keys());
            reveal_strlit("REG");
            reveal_strlit("AUT");
            assert("REG"@[0] != "AUT"@[0]);
            assert("REG"@ != "AUT"@);
        }
        check_bytes(&message.data, keys, Ghost(register_keys()))
    } else if str_eq(command, "AUT") {
        let keys: Vec<&str> = vec!["pubkey", "sd_key"];
        proof {
            reveal_strlit("pubkey");
            reveal_strlit("sd_key");
            assert(keys@[0]@ == pubkey_key());
            assert(keys@[1]@ == sd_key_key());
            assert(str_views(keys@) =~= authenticate_keys());
            reveal_strlit("REG");
            reveal_strlit("AUT");
            assert("REG"@[0] != "AUT"@[0]);
            assert("REG"@ != "AUT"@);
        }
        check_bytes(&message.data, keys, Ghost(authenticate_keys()))
    } else {
        true
    }
}

/// Decides what to do with a request, by its command.
pub fn command_handler(message: MessageCommand) -> (r: Handling)
    requires
        message.command@ == "REG"@ ==> arguments_hold_bytes(message.data@, register_keys()),
        message.command@ == "AUT"@ ==> arguments_hold_bytes(message.data@, authenticate_keys()),
    ensures
        r.model() == command_model(message.command@, message.data@),
        message.command@ == "REG"@ ==> verifies_with_pubkey(message.data@, r),
        message.command@ == "AUT"@ ==> looks_up_pubkey(message.data@, r),
{
    let MessageCommand { command, data } = message;
    let command: &str = command.as_str();
    proof {
        reveal_strlit("REG");
        reveal_strlit("AUT");
        assert("REG"@[0] != "AUT"@[0]);
    }
    if str_eq(command, "REG") {
        register(data)
    } else if str_eq(command, "AUT") {
        authenticate(data)
    } else {
        let mut out: Vec<u8> = Vec::new();
        out.push(45);
        push_str_bytes(&mut out, command);
        push_str_bytes(&mut out, " Unknown command\r\n");
        proof {
            reveal_strlit(" Unknown command\r\n");
            let c = seq!['-'] + command@ + " Unknown command\r\n"@;
            assert(is_ascii_chars(seq!['-']));
            is_ascii_chars_encode_utf8(seq!['-']);
            assert(encode_utf8(seq!['-']) =~= seq![45u8]);
            assert(encode_utf8(c) == encode_utf8(seq!['-']) + encode_utf8(command@) + encode_utf8(" Unknown command\r\n"@)) by {
                assert(c =~= seq!['-'] + (command@ + " Unknown command\r\n"@));
                lemma_encode_utf8_concat(seq!['-'], command@ + " Unknown command\r\n"@);
                lemma_encode_utf8_concat(command@, " Unknown command\r\n"@);
            }
            assert(out@ =~= unknown_command_bytes(command@));
        }
        Handling::Reply(out)
    }
}

/// `b` begins with `p`.
pub open spec fn starts_with(b: Seq<u8>, p: Seq<u8>) -> bool {
    p.len() <= b.len() && b.take(p.len() as int) == p
}

/// The start of an answer: `+` (done) or `-` (refused), then the command.
pub open spec fn reply_prefix(sign: char, command: Seq<char>) -> Seq<u8> {
    encode_utf8(seq![sign] + command)
}

/// Bytes that start with the encoding of `a` start with the encoding of any prefix of `a`.
proof fn lemma_prefix_of_encoding(a: Seq<char>, b: Seq<char>, rest: Seq<u8>)
    ensures
        starts_with(encode_utf8(a + b) + rest, encode_utf8(a)),
{
    lemma_encode_utf8_concat(a, b);
    let e = encode_utf8(a + b) + rest;
    assert(e.take(encode_utf8(a).len() as int) =~= encode_utf8(a));
}

/// The request has every argument its command needs.
pub open spec fn arguments_complete(command: Seq<char>, es: Seq<EntryModel>) -> bool {
    &&& command == "REG"@ ==> forall|i: int| 0 <= i < register_keys().len() ==> has_key(es, #[trigger] register_keys()[i])
    &&& command == "AUT"@ ==> forall|i: int| 0 <= i < authenticate_keys().len() ==> has_key(es, #[trigger] authenticate_keys()[i])
}

/// Where a request has all its arguments, every answer that is decided at once
/// starts with `-` and the request's command.
pub proof fn law_refusals_name_the_command(command: Seq<char>, es: Seq<EntryModel>)
    requires
        arguments_complete(command, es),
    ensures
        command_model(command, es) matches HandlingModel::Reply(b) ==> starts_with(
            b,
            reply_prefix('-', command),
        ),
{
    reveal_strlit("REG");
    reveal_strlit("AUT");
    reveal_strlit("-REG\r\n");
    reveal_strlit("\r\n");
    if command == "REG"@ {
        let keys = register_keys();
        if exists|j: int| first_missing_at(es, keys, j) {
            let j = choose|j: int| first_missing_at(es, keys, j);
            assert(has_key(es, keys[j]));
        } else if !cert_parses(data_under(es, pubkey_key())) {
            assert("-REG\r\n"@ =~= (seq!['-'] + command) + "\r\n"@);
            lemma_prefix_of_encoding(seq!['-'] + command, "\r\n"@, Seq::<u8>::empty());
            assert(encode_utf8("-REG\r\n"@) + Seq::<u8>::empty() =~= encode_utf8("-REG\r\n"@));
        }
    } else if command == "AUT"@ {
        let keys = authenticate_keys();
        if exists|j: int| first_missing_at(es, keys, j) {
            let j = choose|j: int| first_missing_at(es, keys, j);
            assert(has_key(es, keys[j]));
        } else if !cert_parses(data_under(es, pubkey_key())) {
            lemma_error_message_prefix("AUT"@, "Invalid pubkey"@);
        }
    } else {
        let rest = " Unknown command\r\n"@;
        assert(seq!['-'] + command + rest =~= (seq!['-'] + command) + rest);
        lemma_prefix_of_encoding(seq!['-'] + command, rest, Seq::<u8>::empty());
        assert(encode_utf8(seq!['-'] + command + rest) + Seq::<u8>::empty() =~= encode_utf8(
            seq!['-'] + command + rest,
        ));
    }
}

proof fn lemma_error_message_prefix(command: Seq<char>, text: Seq<char>)
    ensures
        starts_with(error_message_bytes(command, text), reply_prefix('-', command)),
{
    let c = seq!['-'] + command;
    let es = seq![(crate::protocol::msg_key(), ValueModel::Data(encode_utf8(text)))];
    let rest = seq![13u8, 10u8] + crate::protocol::encode_entries(es);
    assert(error_message_bytes(command, text) =~= encode_utf8(c + Seq::<char>::empty()) + rest) by {
        assert(c + Seq::<char>::empty() =~= c);
    }
    lemma_prefix_of_encoding(c, Seq::<char>::empty(), rest);
}

/// Every answer in the later steps of an authentication, and every acceptance,
/// starts with `-` or `+` and the command it answers.
pub proof fn law_later_answers_name_the_command(known: bool, sd_key: Seq<u8>, cd_key: Seq<u8>)
    ensures
        authenticate_known_model(known, sd_key) matches Some(b) ==> starts_with(
            b,
            reply_prefix('-', "AUT"@),
        ),
        starts_with(
            encode_message_bytes("+AUT"@, seq![(cd_key_key(), ValueModel::Data(cd_key))]),
            reply_prefix('+', "AUT"@),
        ),
        starts_with(text_bytes("+REG\r\n"@), reply_prefix('+', "REG"@)),
{
    reveal_strlit("AUT");
    reveal_strlit("+AUT");
    reveal_strlit("REG");
    reveal_strlit("+REG\r\n");
    reveal_strlit("\r\n");
    lemma_error_message_prefix("AUT"@, "Pubkey is not in database"@);
    lemma_error_message_prefix("AUT"@, "Invalid sd_key"@);
    let es = seq![(cd_key_key(), ValueModel::Data(cd_key))];
    let rest = seq![13u8, 10u8] + crate::protocol::encode_entries(es);
    assert("+AUT"@ =~= (seq!['+'] + "AUT"@) + Seq::<char>::empty());
    lemma_prefix_of_encoding(seq!['+'] + "AUT"@, Seq::<char>::empty(), rest);
    assert(encode_message_bytes("+AUT"@, es) =~= encode_utf8((seq!['+'] + "AUT"@) + Seq::<char>::empty()) + rest);
    assert("+REG\r\n"@ =~= (seq!['+'] + "REG"@) + "\r\n"@);
    lemma_prefix_of_encoding(seq!['+'] + "REG"@, "\r\n"@, Seq::<u8>::empty());
    assert(encode_utf8("+REG\r\n"@) + Seq::<u8>::empty() =~= encode_utf8("+REG\r\n"@));
}

/// An authentication request that has a `pubkey` and an `sd_key`, both bytes,
/// whose `pubkey` reads as a certificate, goes on to look up the certificate
/// read from the `pubkey` bytes, with the `sd_key` bytes, whatever they hold,
/// as the session key.
pub proof fn law_authentication_looks_up_the_pubkey(es: Seq<EntryModel>, p: Seq<u8>, s: Seq<u8>)
    requires
        lookup(es, pubkey_key()) == Some(ValueModel::Data(p)),
        lookup(es, sd_key_key()) == Some(ValueModel::Data(s)),
        cert_parses(p),
    ensures
        authenticate_model(es) == HandlingModel::LookUpKey(Some(p), s),
{
    let keys = authenticate_keys();
    assert(has_key(es, pubkey_key()) && has_key(es, sd_key_key()));
    assert forall|j: int| !first_missing_at(es, keys, j) by {
        if 0 <= j < keys.len() {
            assert(j == 0 || j == 1);
        }
    }
}

/// A registration request that has a `username`, a `pubkey` and a `signed`,
/// all bytes, whose `pubkey` reads as a certificate, goes on to check the
/// `signed` bytes against the certificate read from the `pubkey` bytes.
pub proof fn law_registration_checks_against_the_pubkey(es: Seq<EntryModel>, u: Seq<u8>, p: Seq<u8>, g: Seq<u8>)
    requires
        lookup(es, username_key()) == Some(ValueModel::Data(u)),
        lookup(es, pubkey_key()) == Some(ValueModel::Data(p)),
        lookup(es, signed_key()) == Some(ValueModel::Data(g)),
        cert_parses(p),
    ensures
        register_model(es) == HandlingModel::VerifyRegistration(Some(p), g),
{
    let keys = register_keys();
    assert(has_key(es, username_key()) && has_key(es, pubkey_key()) && has_key(es, signed_key()));
    assert forall|j: int| !first_missing_at(es, keys, j) by {
        if 0 <= j < keys.len() {
            assert(j == 0 || j == 1 || j == 2);
        }
    }
}

} // verus!
