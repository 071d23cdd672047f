//! The launchers.
use ix::launch::{
    anthropic_api_key, exec_context, exit_code, global_addrs, key_paths, prompt_argument,
    required_env, same_addrs, watch, Addr, Ended, Order, Seen, Watch,
};

#[test]
fn the_first_key_that_is_not_blank_is_used() {
    assert_eq!(key_paths().len(), 2);
    let key = |a: Option<&str>, b: Option<&str>| {
        anthropic_api_key(&vec![a.map(str::to_owned), b.map(str::to_owned)])
    };
    assert_eq!(key(Some("disk\n\n"), Some("tmp")), Ok("disk".to_owned()));
    assert_eq!(key(Some(" \n\u{a0}"), Some(" tmp \n")), Ok(" tmp ".to_owned()));
    assert_eq!(key(None, Some("tmp\r\n")), Ok("tmp\r".to_owned()));
    assert_eq!(
        key(None, Some("\n")),
        Err("no anthropic api key at /var/lib/loom/anthropic_api_key or /run/secrets/anthropic_api_key".to_owned())
    );
}

#[test]
fn variables_and_texts() {
    assert_eq!(required_env("X", Some("v".to_owned())), Ok("v".to_owned()));
    assert_eq!(
        required_env("X", None),
        Err("X is not set; the nix wrapper sets it".to_owned())
    );
    assert_eq!(exec_context("loom"), "exec loom");
    assert_eq!(prompt_argument("/p"), "--append-system-prompt-file=/p");
}

fn v4(a: u8, b: u8, c: u8, d: u8) -> Addr {
    Addr::V4(u32::from_be_bytes([a, b, c, d]))
}

/// The address whose first and last sixteen bits are these.
fn v6(first: u16, last: u16) -> Addr {
    Addr::V6((u128::from(first) << 112) + u128::from(last))
}

#[test]
fn loopback_and_link_local_addresses_do_not_identify() {
    let configured = vec![
        v4(127, 0, 0, 1),
        v4(169, 254, 3, 4),
        v4(10, 0, 0, 5),
        v6(0, 1),
        v6(0xfe80, 1),
        v6(0xfebf, 1),
        v6(0xfec0, 1),
        v6(0x2001, 1),
    ];
    assert_eq!(
        global_addrs(&configured),
        vec![v4(10, 0, 0, 5), v6(0xfec0, 1), v6(0x2001, 1)]
    );
}

#[test]
fn a_session_ends_with_its_identity() {
    let home = vec![v4(10, 0, 0, 5), v4(10, 0, 0, 6)];
    let shuffled = vec![v4(10, 0, 0, 6), v4(10, 0, 0, 5), v4(10, 0, 0, 5)];
    assert!(same_addrs(&home, &shuffled));
    assert!(!same_addrs(&home, &vec![v4(10, 0, 0, 5)]));
    assert_eq!(
        watch(&home, Watch::Session, &Seen::Running),
        (Watch::Addresses, Order::Probe)
    );
    assert_eq!(
        watch(&home, Watch::Addresses, &Seen::Addresses(Some(shuffled))),
        (Watch::Session, Order::Poll)
    );
    for seen in [None, Some(vec![v4(10, 0, 0, 7)])] {
        assert_eq!(
            watch(&home, Watch::Addresses, &Seen::Addresses(seen)),
            (Watch::Termination, Order::Terminate)
        );
    }
    let ended = Ended { success: false, code: Some(3) };
    assert_eq!(
        watch(&home, Watch::Termination, &Seen::Ended(ended)).1,
        Order::Exit(3)
    );
}

#[test]
fn exit_codes_are_handed_on() {
    let code = |success, code| exit_code(Ended { success, code });
    assert_eq!(code(true, Some(0)), 0);
    assert_eq!(code(false, Some(255)), 255);
    assert_eq!(code(false, Some(256)), 1);
    assert_eq!(code(false, Some(-1)), 1);
    assert_eq!(code(false, None), 1);
}
