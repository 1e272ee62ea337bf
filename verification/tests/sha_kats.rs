//! Known-answer tests for the SHA-2 and SHA-3 families, plus chunking and
//! reset behaviour.

use bc_hash::sha2::{Sha224, Sha256, Sha384, Sha512, Sha512_224, Sha512_256};
use bc_hash::sha3::{Sha3_224, Sha3_256, Sha3_384, Sha3_512, Shake128, Shake256};
use bc_hash::digest::Digest;
use bc_hash::{FinishXOF, OneWayHasher};

fn hex28(bytes: [u8; 28]) -> String {
    Digest(bytes).to_hex()
}

fn hex32(bytes: [u8; 32]) -> String {
    Digest(bytes).to_hex()
}

fn hex48(bytes: [u8; 48]) -> String {
    Digest(bytes).to_hex()
}

fn hex64(bytes: [u8; 64]) -> String {
    Digest(bytes).to_hex()
}

#[test]
fn sha256_empty() {
    let mut ctx = Sha256::init();
    let mut out = [0u8; 32];
    ctx.update(b"");
    ctx.finish(&mut out);
    assert_eq!(
        hex32(out),
        "e3b0c44298fc1c149afbf4c8996fb92427ae41e4649b934ca495991b7852b855"
    );
}

#[test]
fn sha256_abc() {
    let mut ctx = Sha256::init();
    let mut out = [0u8; 32];
    ctx.update(b"abc");
    ctx.finish(&mut out);
    assert_eq!(
        hex32(out),
        "ba7816bf8f01cfea414140de5dae2223b00361a396177a9cb410ff61f20015ad"
    );
}

#[test]
fn sha256_two_blocks() {
    let mut ctx = Sha256::init();
    let mut out = [0u8; 32];
    ctx.update(b"abcdbcdecdefdefgefghfghighijhijkijkljklmklmnlmnomnopnopq");
    ctx.finish(&mut out);
    assert_eq!(
        hex32(out),
        "248d6a61d20638b8e5c026930c3e6039a33ce45964ff2167f6ecedd419db06c1"
    );
}

#[test]
fn sha256_million_a() {
    let mut ctx = Sha256::init();
    let mut out = [0u8; 32];
    let chunk = [b'a'; 1000];
    for _ in 0..1000 {
        ctx.update(&chunk);
    }
    ctx.finish(&mut out);
    assert_eq!(
        hex32(out),
        "cdc76e5c9914fb9281a1c7e284d73e67f1809a48a497200e046d39ccc7112cd0"
    );
}

#[test]
fn sha224_vectors() {
    let mut ctx = Sha224::init();
    let mut out = [0u8; 28];
    ctx.update(b"");
    ctx.finish(&mut out);
    assert_eq!(
        hex28(out),
        "d14a028c2a3a2bc9476102bb288234c415a2b01f828ea62ac5b3e42f"
    );
    ctx.reset();
    ctx.update(b"abc");
    ctx.finish(&mut out);
    assert_eq!(
        hex28(out),
        "23097d223405d8228642a477bda255b32aadbce4bda0b3f7e36c9da7"
    );
}

#[test]
fn sha384_abc() {
    let mut ctx = Sha384::init();
    let mut out = [0u8; 48];
    ctx.update(b"abc");
    ctx.finish(&mut out);
    assert_eq!(
        hex48(out),
        "cb00753f45a35e8bb5a03d699ac65007272c32ab0eded1631a8b605a43ff5bed8086072ba1e7cc2358baeca134c825a7"
    );
}

#[test]
fn sha512_abc() {
    let mut ctx = Sha512::init();
    let mut out = [0u8; 64];
    ctx.update(b"abc");
    ctx.finish(&mut out);
    assert_eq!(
        hex64(out),
        "ddaf35a193617abacc417349ae20413112e6fa4e89a97ea20a9eeee64b55d39a2192992a274fc1a836ba3c23a3feebbd454d4423643ce80e2a9ac94fa54ca49f"
    );
}

#[test]
fn sha512_empty() {
    let mut ctx = Sha512::init();
    let mut out = [0u8; 64];
    ctx.update(b"");
    ctx.finish(&mut out);
    assert_eq!(
        hex64(out),
        "cf83e1357eefb8bdf1542850d66d8007d620e4050b5715dc83f4a921d36ce9ce47d0d13c5d85f2b0ff8318d2877eec2f63b931bd47417a81a538327af927da3e"
    );
}

#[test]
fn sha512_224_abc() {
    let mut ctx = Sha512_224::init();
    let mut out = [0u8; 28];
    ctx.update(b"abc");
    ctx.finish(&mut out);
    assert_eq!(
        hex28(out),
        "4634270f707b6a54daae7530460842e20e37ed265ceee9a43e8924aa"
    );
}

#[test]
fn sha512_256_abc() {
    let mut ctx = Sha512_256::init();
    let mut out = [0u8; 32];
    ctx.update(b"abc");
    ctx.finish(&mut out);
    assert_eq!(
        hex32(out),
        "53048e2681941ef99b2e29b76b4c7dabe4c2d0c634fc6d46e0e2f13107e7af23"
    );
}

#[test]
fn sha3_256_empty() {
    let mut ctx = Sha3_256::init();
    let mut out = [0u8; 32];
    ctx.update(b"");
    ctx.finish(&mut out);
    assert_eq!(
        hex32(out),
        "a7ffc6f8bf1ed76651c14756a061d662f580ff4de43b49fa82d80a4b80f8434a"
    );
}

#[test]
fn sha3_256_abc() {
    let mut ctx = Sha3_256::init();
    let mut out = [0u8; 32];
    ctx.update(b"abc");
    ctx.finish(&mut out);
    assert_eq!(
        hex32(out),
        "3a985da74fe225b2045c172d6bd390bd855f086e3e9d525b46bfe24511431532"
    );
}

#[test]
fn sha3_224_abc() {
    let mut ctx = Sha3_224::init();
    let mut out = [0u8; 28];
    ctx.update(b"abc");
    ctx.finish(&mut out);
    assert_eq!(
        hex28(out),
        "e642824c3f8cf24ad09234ee7d3c766fc9a3a5168d0c94ad73b46fdf"
    );
}

#[test]
fn sha3_384_abc() {
    let mut ctx = Sha3_384::init();
    let mut out = [0u8; 48];
    ctx.update(b"abc");
    ctx.finish(&mut out);
    assert_eq!(
        hex48(out),
        "ec01498288516fc926459f58e2c6ad8df9b473cb0fc08c2596da7cf0e49be4b298d88cea927ac7f539f1edf228376d25"
    );
}

#[test]
fn sha3_512_abc() {
    let mut ctx = Sha3_512::init();
    let mut out = [0u8; 64];
    ctx.update(b"abc");
    ctx.finish(&mut out);
    assert_eq!(
        hex64(out),
        "b751850b1a57168a5693cd924b6b096e08f621827444f70d884f5d0240d2712e10e116e9192af3c91a7ec57647e3934057340b4cf408d5a56592f8274eec53f0"
    );
}

#[test]
fn shake128_empty_32() {
    let mut ctx = Shake128::<32>::init();
    let mut out = [0u8; 32];
    ctx.update(b"");
    ctx.finish(&mut out);
    assert_eq!(
        hex32(out),
        "7f9c2ba4e88f827d616045507605853ed73b8093f6efbc88eb1a6eacfa66ef26"
    );
}

#[test]
fn shake256_empty_32() {
    let mut ctx = Shake256::<32>::init();
    let mut out = [0u8; 32];
    ctx.update(b"");
    ctx.finish(&mut out);
    assert_eq!(
        hex32(out),
        "46b9dd2b0ba88d13233b3feb743eeb243fcd52ea62b81b82b50c27646ed5762f"
    );
}

#[test]
fn shake_xof_matches_finish() {
    // The XOF path squeezes the same bytes that finish copies out.
    let mut a = Shake128::<32>::init();
    a.update(b"extendable output");
    let mut fixed = [0u8; 32];
    a.finish(&mut fixed);

    let mut b = Shake128::<32>::init();
    b.update(b"extendable output");
    let mut long = vec![0u8; 200];
    b.finish_xof(&mut long);
    assert_eq!(&long[..32], &fixed[..]);

    // Squeezing more than one rate block (168 bytes for SHAKE128) exercises
    // the permutation inside the squeeze loop; the prefix must be stable.
    let mut c = Shake256::<32>::init();
    c.update(b"extendable output");
    let mut out1 = vec![0u8; 24];
    c.finish_xof(&mut out1);
    let mut d = Shake256::<32>::init();
    d.update(b"extendable output");
    let mut out2 = vec![0u8; 300];
    d.finish_xof(&mut out2);
    assert_eq!(&out2[..24], &out1[..]);
}

#[test]
fn update_chunking_is_invisible() {
    // One hasher gets the message whole, the others in pieces.
    let msg: Vec<u8> = (0u32..200).map(|i| (i * 7 % 251) as u8).collect();
    let mut whole = Sha256::init();
    whole.update(&msg);
    let mut expected = [0u8; 32];
    whole.finish(&mut expected);

    let mut split = Sha256::init();
    split.update(&msg[..1]);
    split.update(&msg[1..63]);
    split.update(&msg[63..64]);
    split.update(&msg[64..128]);
    split.update(&msg[128..]);
    let mut got = [0u8; 32];
    split.finish(&mut got);
    assert_eq!(got, expected);

    let mut bytewise = Sha256::init();
    for b in &msg {
        bytewise.update(&[*b]);
    }
    let mut got2 = [0u8; 32];
    bytewise.finish(&mut got2);
    assert_eq!(got2, expected);

    let mut whole3 = Sha3_256::init();
    whole3.update(&msg);
    let mut expected3 = [0u8; 32];
    whole3.finish(&mut expected3);
    let mut bytewise3 = Sha3_256::init();
    for b in &msg {
        bytewise3.update(&[*b]);
    }
    let mut got3 = [0u8; 32];
    bytewise3.finish(&mut got3);
    assert_eq!(got3, expected3);

    let mut whole5 = Sha512::init();
    whole5.update(&msg);
    let mut expected5 = [0u8; 64];
    whole5.finish(&mut expected5);
    let mut split5 = Sha512::init();
    split5.update(&msg[..127]);
    split5.update(&msg[127..129]);
    split5.update(&msg[129..]);
    let mut got5 = [0u8; 64];
    split5.finish(&mut got5);
    assert_eq!(got5, expected5);
}

#[test]
fn reset_restores_a_fresh_state() {
    let mut ctx = Sha256::init();
    ctx.update(b"some unrelated bytes");
    let mut waste = [0u8; 32];
    ctx.finish(&mut waste);
    ctx.reset();
    ctx.update(b"abc");
    let mut out = [0u8; 32];
    ctx.finish(&mut out);
    assert_eq!(
        hex32(out),
        "ba7816bf8f01cfea414140de5dae2223b00361a396177a9cb410ff61f20015ad"
    );

    let mut ctx3 = Sha3_256::init();
    ctx3.update(b"other bytes");
    let mut waste3 = [0u8; 32];
    ctx3.finish(&mut waste3);
    ctx3.reset();
    ctx3.update(b"abc");
    let mut out3 = [0u8; 32];
    ctx3.finish(&mut out3);
    assert_eq!(
        hex32(out3),
        "3a985da74fe225b2045c172d6bd390bd855f086e3e9d525b46bfe24511431532"
    );
}
