use dagon_lib::commands::{
    authenticate, authenticate_known, command_handler, has_required, register,
    registration_accepted, session_reply, Handling, SessionStep,
};
use dagon_lib::keys::{check_layers, create_key, parse_cert, sign_data, Layer, SecretState, Verdict};
use dagon_lib::protocol::{decode_message, error_message, MessageCommand, MessageData, Value};
use sequoia_openpgp::parse::Parse;
use sequoia_openpgp::serialize::SerializeInto;

fn data_of(pairs: Vec<(&str, Value)>) -> MessageData {
    let mut d = MessageData::new();
    for (k, v) in pairs {
        d.insert(k.to_string(), v);
    }
    d
}

fn reply(h: Handling) -> Vec<u8> {
    match h {
        Handling::Reply(b) => b,
        _ => panic!("expected a reply"),
    }
}

#[test]
fn reports_the_first_missing_argument() {
    let d = data_of(vec![("pubkey", Value::Integer(1))]);
    assert_eq!(has_required(&d, vec!["pubkey"]), Ok(()));
    assert_eq!(
        has_required(&d, vec!["pubkey", "sd_key", "other"]),
        Err("Missing value 'sd_key' required for this command".to_string())
    );
    assert_eq!(has_required(&d, vec![]), Ok(()));
}

#[test]
fn unknown_commands_are_refused() {
    let m = MessageCommand { command: "FOO".to_string(), data: MessageData::new() };
    assert_eq!(reply(command_handler(m)), b"-FOO Unknown command\r\n".to_vec());
}

#[test]
fn registration_needs_its_arguments_and_a_sound_key() {
    let d = data_of(vec![("username", Value::Data(b"bob".to_vec()))]);
    assert_eq!(reply(register(d)), b"Missing value 'pubkey' required for this command".to_vec());
    let d = data_of(vec![
        ("username", Value::Data(b"bob".to_vec())),
        ("pubkey", Value::Data(b"not a key".to_vec())),
        ("signed", Value::Data(b"x".to_vec())),
    ]);
    assert_eq!(reply(register(d)), b"-REG\r\n".to_vec());
    assert_eq!(registration_accepted(), b"+REG\r\n".to_vec());
}

#[test]
fn a_sound_registration_goes_on_to_the_signature() {
    let cert = create_key("bob", None).ok().unwrap();
    let signed = sign_data(b"bob", &cert).ok().unwrap();
    assert!(!signed.is_empty());
    let d = data_of(vec![
        ("username", Value::Data(b"bob".to_vec())),
        ("pubkey", Value::Data(cert.cert().armored().to_vec().unwrap())),
        ("signed", Value::Data(signed.clone())),
    ]);
    let m = MessageCommand { command: "REG".to_string(), data: d };
    match command_handler(m) {
        Handling::VerifyRegistration { signed: s, cert: c } => {
            assert_eq!(s, signed);
            assert_eq!(c.cert().fingerprint(), cert.cert().fingerprint());
        }
        _ => panic!("expected the signature to be checked"),
    }
}

#[test]
fn authentication_steps() {
    let d = data_of(vec![("pubkey", Value::Data(b"xx".to_vec()))]);
    assert_eq!(reply(authenticate(d)), b"Missing value 'sd_key' required for this command".to_vec());
    let d = data_of(vec![("pubkey", Value::Data(b"xx".to_vec())), ("sd_key", Value::Data(b"yy".to_vec()))]);
    assert_eq!(reply(authenticate(d)), error_message("AUT", "Invalid pubkey"));
    let cert = create_key("carol", None).ok().unwrap();
    let armored = cert.cert().armored().to_vec().unwrap();
    let d = data_of(vec![("pubkey", Value::Data(armored.clone())), ("sd_key", Value::Data(b"yy".to_vec()))]);
    match authenticate(d) {
        Handling::LookUpKey { sd_key, pubkey } => {
            assert_eq!(sd_key, b"yy".to_vec());
            assert_eq!(pubkey.cert().fingerprint(), cert.cert().fingerprint());
        }
        _ => panic!("expected a lookup"),
    }
    match authenticate_known(false, &armored) {
        SessionStep::Reply(b) => assert_eq!(b, error_message("AUT", "Pubkey is not in database")),
        _ => panic!(),
    }
    match authenticate_known(true, b"yy") {
        SessionStep::Reply(b) => assert_eq!(b, error_message("AUT", "Invalid sd_key")),
        _ => panic!(),
    }
    assert!(matches!(authenticate_known(true, &armored), SessionStep::OpenSession));
    let r = session_reply(b"KEY".to_vec());
    assert_eq!(r, b"+AUT\r\n$6:3:cd_keyKEY".to_vec());
}

#[test]
fn keys_parse_back() {
    let cert = create_key("dave", None).ok().unwrap();
    assert!(parse_cert(&cert.cert().armored().to_vec().unwrap()).is_ok());
    assert!(parse_cert(b"junk").is_err());
}

#[test]
fn a_protected_key_cannot_sign() {
    let cert = create_key("erin", Some("secret".into())).ok().unwrap();
    assert!(sign_data(b"erin", &cert).is_err());
}

#[test]
fn judges_message_structure() {
    assert_eq!(check_layers(&vec![Layer::SignatureGroup(Some(true))]), Verdict::Good);
    assert_eq!(check_layers(&vec![Layer::SignatureGroup(Some(false))]), Verdict::BadSignature);
    assert_eq!(check_layers(&vec![Layer::SignatureGroup(None)]), Verdict::NoSignature);
    assert_eq!(check_layers(&vec![Layer::Other]), Verdict::UnexpectedStructure);
    assert_eq!(
        check_layers(&vec![Layer::SignatureGroup(Some(true)), Layer::Other]),
        Verdict::UnexpectedStructure
    );
    assert_eq!(check_layers(&vec![]), Verdict::NotVerified);
    assert_eq!(Verdict::NoSignature.message(), "No signature");
}

#[test]
fn decoded_requests_reach_the_handler() {
    let m = decode_message(b"XYZ\r\n\0").unwrap();
    assert_eq!(reply(command_handler(m)), b"-XYZ Unknown command\r\n".to_vec());
}

#[test]
fn store_key_is_the_armored_public_key() {
    let cert = create_key("frank", None).ok().unwrap();
    let k = dagon_lib::keyserver::store_key(&cert).ok().unwrap();
    let text = String::from_utf8(k.clone()).unwrap();
    assert!(text.starts_with("-----BEGIN PGP PUBLIC KEY BLOCK-----"));
    assert!(!text.contains("frank"));
    assert_eq!(dagon_lib::keyserver::store_key(&cert).ok().unwrap(), k);
}

#[test]
fn new_keys_carry_the_user_name_and_the_password() {
    let cert = create_key("gina", None).ok().unwrap();
    assert_eq!(cert.userids().clone(), vec![b"gina".to_vec()]);
    assert_eq!(cert.secret(), SecretState::Unencrypted);
    let ids: Vec<Vec<u8>> = cert.cert().userids().map(|u| u.userid().value().to_vec()).collect();
    assert_eq!(ids, vec![b"gina".to_vec()]);
    let protected = create_key("hank", Some("pw".into())).ok().unwrap();
    assert_eq!(protected.secret(), SecretState::Encrypted);
}

#[test]
fn signed_data_holds_the_plain_data() {
    let cert = create_key("ivy", None).ok().unwrap();
    let signed = sign_data(b"hello there", &cert).ok().unwrap();
    let msg = sequoia_openpgp::Message::from_bytes(&signed).unwrap();
    assert_eq!(msg.body().unwrap().body(), b"hello there");
}

#[test]
fn a_public_key_cannot_sign() {
    let cert = create_key("jack", None).ok().unwrap();
    let public = parse_cert(&cert.cert().armored().to_vec().unwrap()).ok().unwrap();
    assert_eq!(public.secret(), SecretState::Missing);
    assert!(sign_data(b"jack", &public).is_err());
}

#[test]
fn store_key_of_a_parsed_key_matches_the_generated_one() {
    let cert = create_key("kim", None).ok().unwrap();
    let parsed = parse_cert(&cert.cert().armored().to_vec().unwrap()).ok().unwrap();
    assert_eq!(
        dagon_lib::keyserver::store_key(&parsed).ok().unwrap(),
        dagon_lib::keyserver::store_key(&cert).ok().unwrap()
    );
}

#[test]
fn a_parsed_key_keeps_its_user_ids_and_secret() {
    let cert = create_key("lena", None).ok().unwrap();
    let tsk = cert.cert().as_tsk().to_vec().unwrap();
    let parsed = parse_cert(&tsk).ok().unwrap();
    assert_eq!(parsed.userids().clone(), vec![b"lena".to_vec()]);
    assert_eq!(parsed.secret(), SecretState::Unencrypted);
    let public = parse_cert(&cert.cert().armored().to_vec().unwrap()).ok().unwrap();
    assert_eq!(public.userids().clone(), vec![b"lena".to_vec()]);
}
