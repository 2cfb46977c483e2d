use mc_protocol::auth::bungee::{
    finish_login, handle_login_start_at as bungee_login_start_at, parse_forwarded_address,
    split_nul_parts, AuthFunctionResponse as BungeeResponse, BungeeAuthError,
};
use mc_protocol::auth::mojang::{
    begin_encryption_with, complete_login, compression_packet, encryption_response,
    login_start_at, session_reply, AuthClientContext, AuthClientState, AuthError,
    AuthFunctionResponse, KeyError, ValidationError,
};
use mc_protocol::auth::velocity::{
    expect_login_start, finish_forwarding, handle_login_start_at as velocity_login_start_at,
    handle_plugin_response, AuthClientContext as VelocityContext, AuthClientState as VelocityState,
    AuthFunctionResponse as VelocityResponse, VelocityAuthError,
};
use mc_protocol::auth::{check_login_key_at, login_failure_message, AuthConfiguration, KeyCheck};
use mc_protocol::clientbound::play::GameProfile;
use mc_protocol::codec::{write_string, write_uuid, write_var_int};
use mc_protocol::common::chat::Chat;
use mc_protocol::protocol::login::{
    EncryptionResponse, EncryptionResponseData, IdentifiedKey, LoginPluginResponse, LoginStart,
    MojangIdentifiedKey,
};
use mc_protocol::registry::RegistryError;
use rsa::pkcs8::{EncodePrivateKey, EncodePublicKey};
use sha1::Digest;
use hmac::Mac;

fn private_key() -> rsa::RsaPrivateKey {
    rsa::RsaPrivateKey::new(&mut rand::thread_rng(), 1024).unwrap()
}

fn config_for(key: &rsa::RsaPrivateKey, force: bool, url: Option<&str>) -> AuthConfiguration {
    let der = key.to_pkcs8_der().unwrap().as_bytes().to_vec();
    AuthConfiguration::new(der, 256, force, url.map(|u| u.to_string())).unwrap()
}

fn login(name: &str, sig_data: Option<MojangIdentifiedKey>, holder: Option<u128>) -> LoginStart {
    LoginStart { name: name.to_string(), sig_data, sig_holder: holder }
}

#[test]
fn configuration_derives_public_key() {
    let key = private_key();
    let config = config_for(&key, false, None);
    let expected = key.to_public_key().to_public_key_der().unwrap().as_bytes().to_vec();
    assert_eq!(config.server_public_key, expected);
    assert!(AuthConfiguration::new(vec![1, 2, 3], 0, false, None).is_none());
}

#[test]
fn key_checks_without_key() {
    let l = login("Steve", None, Some(7));
    assert!(matches!(check_login_key_at(&l, &[], false, Some(0)), KeyCheck::Accepted(None)));
    assert!(matches!(check_login_key_at(&l, &[], true, Some(0)), KeyCheck::NoKey));
}

#[test]
fn key_checks_refuse_key_without_holder_or_expired() {
    let sig = MojangIdentifiedKey { timestamp: 1000, public_key: vec![1], signature: vec![2] };
    let l = login("Steve", Some(sig), None);
    assert!(matches!(check_login_key_at(&l, &[], false, Some(0)), KeyCheck::NoHolder));
    let sig = MojangIdentifiedKey { timestamp: 1000, public_key: vec![1], signature: vec![2] };
    let l = login("Steve", Some(sig), Some(1));
    // 1000 ms is 1_000_000_000 ns; a clock past it finds the key expired.
    assert!(matches!(check_login_key_at(&l, &[], false, Some(1_000_000_001)), KeyCheck::Expired));
    // Not expired, but the Mojang key is no key.
    assert!(matches!(
        check_login_key_at(&l, &[0, 1, 2], false, Some(1_000_000_000)),
        KeyCheck::MojangKeyInvalid
    ));
    // A valid Mojang key, but the signature is garbage.
    let mojang = private_key().to_public_key().to_public_key_der().unwrap().as_bytes().to_vec();
    assert!(matches!(check_login_key_at(&l, &mojang, false, None), KeyCheck::SignatureInvalid));
}

#[test]
fn verify_data_is_holder_expiry_signature() {
    let sig = MojangIdentifiedKey { timestamp: 0x0102, public_key: vec![9], signature: vec![7, 8] };
    let data = sig.key_verify_data(3);
    let mut expected = vec![0u8; 15];
    expected.push(3);
    expected.extend_from_slice(&[0, 0, 0, 0, 0, 0, 1, 2, 7, 8]);
    assert_eq!(data, expected);
}

#[test]
fn mojang_login_start_states() {
    let key = private_key();
    let config = config_for(&key, true, None);
    let ctx = AuthClientContext::new();
    let r = login_start_at(&ctx, &config, &[], login("Alex", None, None), Some(0));
    assert!(matches!(r, AuthFunctionResponse::KeyError(KeyError::NoKey)));
    let config = config_for(&key, false, None);
    let r = login_start_at(&ctx, &config, &[], login("Alex", None, Some(42)), Some(0));
    match r {
        AuthFunctionResponse::LoginStartPass { key, name, expected_uuid } => {
            assert!(key.is_none());
            assert_eq!(name, "Alex");
            assert_eq!(expected_uuid, Some(42));
        }
        _ => panic!("expected a pass"),
    }
    let waiting = AuthClientContext {
        state: AuthClientState::ExpectingEncryptionResponse {
            verify_bytes: vec![1],
            login_username: "x".to_string(),
        },
        key: None,
    };
    let r = login_start_at(&waiting, &config, &[], login("Alex", None, None), Some(0));
    assert!(matches!(r, AuthFunctionResponse::InvalidState));
}

#[test]
fn begin_encryption_keeps_token_and_name() {
    let key = private_key();
    let config = config_for(&key, false, None);
    let mut ctx = AuthClientContext::new();
    let pass = AuthFunctionResponse::LoginStartPass {
        key: None,
        name: "Steve".to_string(),
        expected_uuid: Some(5),
    };
    let (request, expected) = begin_encryption_with(&mut ctx, &config, pass, vec![9, 8, 7, 6]).unwrap();
    assert_eq!(request.server_id, "");
    assert_eq!(request.public_key, config.server_public_key);
    assert_eq!(request.verify_token, vec![9, 8, 7, 6]);
    assert_eq!(expected, Some(5));
    match &ctx.state {
        AuthClientState::ExpectingEncryptionResponse { verify_bytes, login_username } => {
            assert_eq!(verify_bytes, &vec![9, 8, 7, 6]);
            assert_eq!(login_username, "Steve");
        }
        _ => panic!("state did not move on"),
    }
    let mut ctx2 = AuthClientContext::new();
    let refused = begin_encryption_with(
        &mut ctx2,
        &config,
        AuthFunctionResponse::KeyError(KeyError::Expired),
        vec![],
    );
    assert!(matches!(refused, Err(AuthError::KeyError(KeyError::Expired))));
    assert!(matches!(ctx2.state, AuthClientState::ExpectingLoginStart));
}

fn expected_server_hash(secret: &[u8], public_der: &[u8]) -> String {
    let mut hasher = sha1::Sha1::new();
    hasher.update(b"");
    hasher.update(secret);
    hasher.update(public_der);
    format!("{:x}", num_bigint::BigInt::from_signed_bytes_be(&hasher.finalize()))
}

#[test]
fn encryption_response_builds_session_query() {
    let key = private_key();
    let config = config_for(&key, false, Some("http://session.test"));
    let public = key.to_public_key();
    let mut rng = rand::thread_rng();
    let token = vec![1u8, 2, 3, 4];
    let secret: Vec<u8> = (0..16).collect();
    let ctx = AuthClientContext {
        state: AuthClientState::ExpectingEncryptionResponse {
            verify_bytes: token.clone(),
            login_username: "Steve".to_string(),
        },
        key: None,
    };
    let response = EncryptionResponse {
        shared_secret: public.encrypt(&mut rng, rsa::Pkcs1v15Encrypt, &secret).unwrap(),
        response_data: EncryptionResponseData::VerifyTokenData(
            public.encrypt(&mut rng, rsa::Pkcs1v15Encrypt, &token).unwrap(),
        ),
    };
    let check = encryption_response(&ctx, &config, response).unwrap();
    assert_eq!(check.shared_secret, secret);
    let hash = expected_server_hash(&secret, &config.server_public_key);
    assert_eq!(
        check.url,
        format!("http://session.test/session/minecraft/hasJoined?username=Steve&serverId={}", hash)
    );
}

#[test]
fn encryption_response_refusals() {
    let key = private_key();
    let config = config_for(&key, false, None);
    let public = key.to_public_key();
    let mut rng = rand::thread_rng();
    let ctx = AuthClientContext {
        state: AuthClientState::ExpectingEncryptionResponse {
            verify_bytes: vec![1, 2, 3, 4],
            login_username: "Steve".to_string(),
        },
        key: None,
    };
    let wrong_token = EncryptionResponse {
        shared_secret: vec![],
        response_data: EncryptionResponseData::VerifyTokenData(
            public.encrypt(&mut rng, rsa::Pkcs1v15Encrypt, &[4, 3, 2, 1]).unwrap(),
        ),
    };
    assert!(matches!(
        encryption_response(&ctx, &config, wrong_token),
        Err(AuthFunctionResponse::ValidationError(ValidationError::VerifyMismatch))
    ));
    let undecryptable = EncryptionResponse {
        shared_secret: vec![],
        response_data: EncryptionResponseData::VerifyTokenData(vec![1, 2, 3]),
    };
    assert!(matches!(
        encryption_response(&ctx, &config, undecryptable),
        Err(AuthFunctionResponse::ValidationError(ValidationError::InvalidData))
    ));
    let signed_without_key = EncryptionResponse {
        shared_secret: vec![],
        response_data: EncryptionResponseData::MessageSignature { salt: 1, message_signature: vec![] },
    };
    assert!(matches!(
        encryption_response(&ctx, &config, signed_without_key),
        Err(AuthFunctionResponse::ValidationError(ValidationError::InvalidData))
    ));
    let fresh = AuthClientContext::new();
    let any = EncryptionResponse {
        shared_secret: vec![],
        response_data: EncryptionResponseData::VerifyTokenData(vec![]),
    };
    assert!(matches!(
        encryption_response(&fresh, &config, any),
        Err(AuthFunctionResponse::InvalidState)
    ));
}

fn profile(id: u128) -> GameProfile {
    GameProfile { id, name: "Steve".to_string(), properties: vec![] }
}

#[test]
fn session_reply_by_status() {
    assert!(matches!(
        session_reply(None, None, vec![]),
        AuthFunctionResponse::ValidationError(ValidationError::MojangAuthError)
    ));
    assert!(matches!(
        session_reply(Some(204), Some(profile(1)), vec![]),
        AuthFunctionResponse::ValidationError(ValidationError::MojangAuthFailure)
    ));
    assert!(matches!(
        session_reply(Some(500), Some(profile(1)), vec![]),
        AuthFunctionResponse::ValidationError(ValidationError::MojangAuthError)
    ));
    assert!(matches!(
        session_reply(Some(200), None, vec![]),
        AuthFunctionResponse::ValidationError(ValidationError::MojangAuthError)
    ));
    match session_reply(Some(200), Some(profile(3)), vec![7]) {
        AuthFunctionResponse::AuthComplete { profile, shared_secret } => {
            assert_eq!(profile.id, 3);
            assert_eq!(shared_secret, vec![7]);
        }
        _ => panic!("expected completion"),
    }
}

#[test]
fn complete_login_checks_expected_uuid() {
    let done = |id| AuthFunctionResponse::AuthComplete { profile: profile(id), shared_secret: vec![1] };
    assert!(complete_login(Some(3), done(3)).is_ok());
    assert!(complete_login(None, done(4)).is_ok());
    assert!(matches!(
        complete_login(Some(3), done(4)),
        Err(AuthError::ValidationError(ValidationError::InvalidData))
    ));
    assert!(matches!(
        complete_login(None, AuthFunctionResponse::InvalidState),
        Err(AuthError::InvalidState)
    ));
}

#[test]
fn compression_only_when_not_negative() {
    let key = private_key();
    let mut config = config_for(&key, false, None);
    assert_eq!(compression_packet(&config).unwrap().threshold, 256);
    config.compression_threshold = -1;
    assert!(compression_packet(&config).is_none());
}

#[test]
fn auth_error_messages() {
    assert_eq!(AuthError::InvalidState.message(), "Invalid authentication state during login.");
    assert_eq!(AuthError::KeyError(KeyError::NoHolder).message(), "No holder for player key found.");
    assert_eq!(
        AuthError::ValidationError(ValidationError::InvalidSharedSecret).message(),
        "Invalid shared secret, could not construct encryption stream."
    );
    assert_eq!(
        AuthError::RegistryError(RegistryError::NoHandlerFound((760, -3), vec![])).message(),
        "No packet handler found for proto: 760, packet: -3"
    );
}

#[test]
fn failure_message_is_red_prompt_and_reason() {
    match login_failure_message("Player key expired.".to_string()) {
        Chat::Text { text, base } => {
            assert_eq!(text, "");
            let extra = base.extra.unwrap();
            assert_eq!(extra.len(), 2);
            match &extra[0] {
                Chat::Text { text, base } => {
                    assert_eq!(text, "Failed to login: ");
                    assert_eq!(base.style.color.as_deref(), Some("#FF0000"));
                }
                _ => panic!("prompt is text"),
            }
            assert!(matches!(&extra[1], Chat::Literal(l) if l == "Player key expired."));
        }
        _ => panic!("message is text"),
    }
}

#[test]
fn split_on_nul_like_str_split() {
    assert_eq!(split_nul_parts("a\0b\0\0c"), vec!["a", "b", "", "c"]);
    assert_eq!(split_nul_parts(""), vec![""]);
    assert_eq!(split_nul_parts("\0"), vec!["", ""]);
}

#[test]
fn bungee_forwarded_address() {
    let f = parse_forwarded_address(
        "mc.example\01.2.3.4\0069a79f444e94726a5befca90e38aaf5\0[]",
    )
    .unwrap();
    assert_eq!(f.address, "1.2.3.4");
    assert_eq!(f.id, 0x069a79f4_44e9_4726_a5be_fca90e38aaf5);
    assert_eq!(f.properties, "[]");
    let missing = |s: &str| match parse_forwarded_address(s) {
        Err(BungeeAuthError::DataMismatch(what)) => what,
        _ => panic!("expected a mismatch"),
    };
    assert_eq!(missing("host"), "address");
    assert_eq!(missing("host\0addr"), "undashed_id");
    assert_eq!(missing("host\0addr\0id"), "properties_str");
    assert_eq!(missing("host\0addr\0not-a-uuid\0[]"), "uuid");
}

#[test]
fn bungee_login_assembles_profile() {
    let key = private_key();
    let config = config_for(&key, false, None);
    let r = bungee_login_start_at(&config, &[], login("Alex", None, Some(9)), None);
    let forwarded = parse_forwarded_address("h\0addr\000000000000000000000000000000001\0[]").unwrap();
    let client = finish_login(forwarded, vec![], r).unwrap();
    assert_eq!(client.profile.id, 1);
    assert_eq!(client.profile.name, "Alex");
    assert_eq!(client.sig_holder, Some(9));
    assert_eq!(client.overridden_address.as_deref(), Some("addr"));
    let forced = config_for(&key, true, None);
    assert!(matches!(
        bungee_login_start_at(&forced, &[], login("Alex", None, None), None),
        Err(BungeeAuthError::KeyNotFound)
    ));
    assert!(matches!(
        &bungee_login_start_at(&config, &[], login("Alex", None, None), None),
        Ok(BungeeResponse::LoginStartSuccess { sig_holder: None, .. })
    ));
}

fn forwarding_payload(secret: &str, data: &[u8]) -> Vec<u8> {
    let mut mac = hmac::Hmac::<sha2::Sha256>::new_from_slice(secret.as_bytes()).unwrap();
    mac.update(data);
    let mut out = mac.finalize().into_bytes().to_vec();
    out.extend_from_slice(data);
    out
}

fn default_forwarding() -> Vec<u8> {
    let mut data = Vec::new();
    write_var_int(&mut data, 1);
    write_string(&mut data, "9.8.7.6", 1000).unwrap();
    write_uuid(&mut data, 77);
    write_string(&mut data, "Alex", 1000).unwrap();
    write_var_int(&mut data, 1);
    write_string(&mut data, "textures", 1000).unwrap();
    write_string(&mut data, "abc", 1000).unwrap();
    data.push(0);
    data
}

#[test]
fn velocity_plugin_response_checks_mac() {
    let ctx = VelocityContext { state: VelocityState::ExpectingModernForwarding, secret_key: "s3cret".to_string() };
    let data = default_forwarding();
    let response = LoginPluginResponse { message_id: -1, successful: true, data: forwarding_payload("s3cret", &data) };
    match handle_plugin_response(&ctx, response).unwrap() {
        VelocityResponse::PluginMessageSuccess { address, profile, mojang_key } => {
            assert_eq!(address, "9.8.7.6");
            assert_eq!(profile.id, 77);
            assert_eq!(profile.name, "Alex");
            assert_eq!(profile.properties.len(), 1);
            assert_eq!(profile.properties[0].value, "abc");
            assert!(profile.properties[0].signature.is_none());
            assert!(mojang_key.is_none());
        }
        _ => panic!("expected forwarded data"),
    }
    let forged = LoginPluginResponse { message_id: -1, successful: true, data: forwarding_payload("other", &data) };
    assert!(matches!(handle_plugin_response(&ctx, forged), Err(VelocityAuthError::MacError)));
    let short = LoginPluginResponse { message_id: -1, successful: true, data: vec![0; 32] };
    assert!(matches!(handle_plugin_response(&ctx, short), Err(VelocityAuthError::InvalidState)));
    let unsuccessful = LoginPluginResponse { message_id: -1, successful: false, data: forwarding_payload("s3cret", &data) };
    assert!(matches!(handle_plugin_response(&ctx, unsuccessful), Err(VelocityAuthError::InvalidState)));
    let early = VelocityContext { state: VelocityState::ExpectingLoginStart, secret_key: "s3cret".to_string() };
    let response = LoginPluginResponse { message_id: -1, successful: true, data: forwarding_payload("s3cret", &data) };
    assert!(matches!(handle_plugin_response(&early, response), Err(VelocityAuthError::InvalidState)));
}

#[test]
fn velocity_login_start_requests_forwarding() {
    let key = private_key();
    let config = config_for(&key, false, None);
    let mut ctx = VelocityContext::new("s".to_string());
    let (response, request) = velocity_login_start_at(&mut ctx, &config, &[], login("Alex", None, None), None).unwrap();
    assert_eq!(request.message_id, -1);
    assert_eq!(request.channel, "velocity:player_info");
    assert_eq!(request.data, vec![3]);
    assert_eq!(ctx.state, VelocityState::ExpectingModernForwarding);
    let (k, mk) = expect_login_start(Ok(response)).unwrap();
    assert!(k.is_none() && mk.is_none());
    assert!(matches!(
        velocity_login_start_at(&mut ctx, &config, &[], login("Alex", None, None), None),
        Err(VelocityAuthError::InvalidState)
    ));
}

#[test]
fn velocity_finish_checks_key_matches() {
    let success = |mk: Option<MojangIdentifiedKey>| {
        Ok(VelocityResponse::PluginMessageSuccess {
            address: "1.1.1.1".to_string(),
            profile: GameProfile { id: 1, name: "A".to_string(), properties: vec![] },
            mojang_key: mk,
        })
    };
    let client = finish_forwarding(None, None, success(None)).unwrap();
    assert_eq!(client.overridden_address.as_deref(), Some("1.1.1.1"));
    let k = || MojangIdentifiedKey { timestamp: 1, public_key: vec![1], signature: vec![2] };
    assert!(finish_forwarding(None, Some(k()), success(Some(k()))).is_ok());
    match finish_forwarding(None, Some(k()), success(None)) {
        Err(VelocityAuthError::DataMismatch(what)) => assert_eq!(what, "mojang_key"),
        _ => panic!("expected a mismatch"),
    }
}

#[test]
fn velocity_error_messages() {
    assert_eq!(
        VelocityAuthError::DataMismatch("mojang_key".to_string()).message(),
        "Data for `mojang_key` did not match."
    );
    assert_eq!(VelocityAuthError::MacError.message(), "Mac error encountered: MAC tag mismatch");
    assert_eq!(
        BungeeAuthError::RegistryError(RegistryError::NoHandlerFound((1, 2), vec![])).message(),
        "Registry error found! No handler found for protocol version: 1, packet id: 2"
    );
}

#[test]
fn encryption_response_with_signed_token() {
    let server = private_key();
    let config = config_for(&server, false, None);
    let client = private_key();
    let client_der = client.to_public_key().to_public_key_der().unwrap().as_bytes().to_vec();
    let token = vec![5u8, 6, 7, 8];
    let salt: i64 = -2;
    let mut message = token.clone();
    message.extend_from_slice(&salt.to_be_bytes());
    let digest = sha2::Sha256::digest(&message);
    let signature = client.sign(rsa::Pkcs1v15Sign::new::<sha2::Sha256>(), &digest).unwrap();
    let secret: Vec<u8> = vec![42; 16];
    let encrypted_secret = server
        .to_public_key()
        .encrypt(&mut rand::thread_rng(), rsa::Pkcs1v15Encrypt, &secret)
        .unwrap();
    let ctx = |k| AuthClientContext {
        state: AuthClientState::ExpectingEncryptionResponse {
            verify_bytes: token.clone(),
            login_username: "Alex".to_string(),
        },
        key: Some(k),
    };
    let good = EncryptionResponse {
        shared_secret: encrypted_secret.clone(),
        response_data: EncryptionResponseData::MessageSignature {
            salt,
            message_signature: signature.clone(),
        },
    };
    let check = encryption_response(&ctx(IdentifiedKey::new(&client_der).unwrap()), &config, good).unwrap();
    assert_eq!(check.shared_secret, secret);
    assert!(check.url.starts_with("https://sessionserver.mojang.com/session/minecraft/hasJoined?username=Alex&serverId="));
    let bad_salt = EncryptionResponse {
        shared_secret: encrypted_secret,
        response_data: EncryptionResponseData::MessageSignature { salt: 3, message_signature: signature },
    };
    assert!(matches!(
        encryption_response(&ctx(IdentifiedKey::new(&client_der).unwrap()), &config, bad_salt),
        Err(AuthFunctionResponse::ValidationError(ValidationError::DataSignatureInvalid))
    ));
    assert!(IdentifiedKey::new(&[1, 2, 3]).is_err());
}
