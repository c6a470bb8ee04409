use link_replication::args::{find_arg, sanitise_globals, Args, Command, Env};
use link_replication::keys::{IntoSecretKeyError, PublicKey, Signature, SignatureError};
use link_replication::remote::Remote;

#[test]
fn public_key_from_slice() {
    assert!(PublicKey::from_slice(&[1u8; 31]).is_none());
    assert!(PublicKey::from_slice(&[1u8; 33]).is_none());
    assert_eq!(PublicKey::from_slice(&[7u8; 32]).map(|k| k.bytes), Some(vec![7u8; 32]));
}

#[test]
fn public_key_text_is_base58() {
    let k = PublicKey::from_slice(&[0u8; 32]).unwrap();
    assert_eq!(k.to_string(), "1".repeat(32));
    let mut b = [0u8; 32];
    b[31] = 57;
    let k = PublicKey::from_slice(&b).unwrap();
    assert_eq!(k.to_string(), format!("{}z", "1".repeat(31)));
}

#[test]
fn signature_from_hex() {
    let s = "ab".repeat(64);
    assert_eq!(Signature::from_hex_string(&s).map(|s| s.bytes), Ok(vec![0xab; 64]));
    assert_eq!(Signature::from_hex_string("abc"), Err(SignatureError::InvalidHex));
    assert_eq!(Signature::from_hex_string("zz"), Err(SignatureError::InvalidHex));
    assert_eq!(Signature::from_hex_string("0aFF"), Err(SignatureError::WrongLength(2)));
}

#[test]
fn secret_key_error_message() {
    assert_eq!(IntoSecretKeyError::InvalidSliceLength.to_string(), "Invalid slice length");
}

#[test]
fn finds_first_arg() {
    let ext: Vec<String> = vec!["a".into(), "--rad-quiet".into(), "--rad-quiet".into()];
    assert_eq!(find_arg("--rad-quiet", &ext), Some(1));
    assert_eq!(find_arg("--rad-verbose", &ext), None);
}

#[test]
fn globals_take_precedence() {
    let args = Args {
        rad_profile: Some("deaf".into()),
        rad_quiet: false,
        rad_verbose: false,
        command: Command::External(vec![
            "sub".into(),
            "--rad-profile".into(),
            "beef".into(),
            "--rad-quiet".into(),
        ]),
    };
    let env = Env { profile: Some("cafe".into()), quiet: false, verbose: false };
    let out = sanitise_globals(args, env);
    assert_eq!(
        out.command,
        Command::External(vec![
            "sub".to_string(),
            "--rad-profile".to_string(),
            "deaf".to_string(),
            "--rad-quiet".to_string(),
        ])
    );
}

#[test]
fn subcommand_value_before_environment() {
    let args = Args {
        rad_profile: None,
        rad_quiet: false,
        rad_verbose: false,
        command: Command::External(vec!["--rad-profile".into(), "beef".into(), "x".into()]),
    };
    let env = Env { profile: Some("cafe".into()), quiet: true, verbose: false };
    let out = sanitise_globals(args, env);
    assert_eq!(
        out.command,
        Command::External(vec![
            "x".to_string(),
            "--rad-profile".to_string(),
            "beef".to_string(),
            "--rad-quiet".to_string(),
        ])
    );
}

#[test]
fn profile_command_is_untouched() {
    let args = Args { rad_profile: None, rad_quiet: true, rad_verbose: false, command: Command::Profile };
    let out = sanitise_globals(args.clone(), Env { profile: None, quiet: true, verbose: true });
    assert_eq!(out, args);
}

#[test]
fn rad_remote_with_pushes() {
    let mut r = Remote::rad_remote("/tmp/monorepo".to_string(), Some("+refs/heads/*:refs/heads/*".to_string()));
    assert_eq!(r.name, "rad");
    assert!(r.push_specs.is_empty());
    r.add_pushes(vec!["refs/heads/*:refs/heads/*".to_string()]);
    r.add_pushes(vec!["a".to_string(), "b".to_string()]);
    assert_eq!(r.push_specs, vec!["refs/heads/*:refs/heads/*".to_string(), "a".to_string(), "b".to_string()]);
}
