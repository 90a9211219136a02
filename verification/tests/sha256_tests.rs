use sha256_core::hash::{bsig0, bsig1, ch, maj, rotr, ssig0, ssig1};
use sha256_core::sha256_to_hex;
use sha256_core::Sha256Ctx;

/// Hashes `data` in one update call and returns the digest as a hex string.
fn digest_hex(data: &[u8]) -> String {
    let mut ctx = Sha256Ctx::new();
    ctx.update(data);
    let digest = ctx.finalize();
    hex_of(&digest)
}

/// Renders a 32-byte digest as its 64-character hex string.
fn hex_of(digest: &[u8; 32]) -> String {
    let hex = sha256_to_hex(digest);
    assert_eq!(hex[64], 0);
    String::from_utf8(hex[..64].to_vec()).unwrap()
}

/// Hashes `data` split into the given chunk sizes (which must sum to its length).
fn digest_hex_chunked(data: &[u8], chunks: &[usize]) -> String {
    let mut ctx = Sha256Ctx::new();
    let mut pos = 0;
    for &len in chunks {
        ctx.update(&data[pos..pos + len]);
        pos += len;
    }
    assert_eq!(pos, data.len());
    let digest = ctx.finalize();
    hex_of(&digest)
}

#[test]
fn empty_input() {
    assert_eq!(
        digest_hex(b""),
        "e3b0c44298fc1c149afbf4c8996fb92427ae41e4649b934ca495991b7852b855"
    );
}

#[test]
fn abc_input() {
    assert_eq!(
        digest_hex(b"abc"),
        "ba7816bf8f01cfea414140de5dae2223b00361a396177a9cb410ff61f20015ad"
    );
}

#[test]
fn two_block_standard_vector() {
    assert_eq!(
        digest_hex(b"abcdbcdecdefdefgefghfghighijhijkijkljklmklmnlmnomnopnopq"),
        "248d6a61d20638b8e5c026930c3e6039a33ce45964ff2167f6ecedd419db06c1"
    );
}

#[test]
fn short_text() {
    assert_eq!(
        digest_hex(b"hello world"),
        "b94d27b9934d3e08a52e52d7da7dabfac484efe37a5380ee9088f7ace2efcde9"
    );
}

#[test]
fn padding_boundary_55() {
    // 55 buffered bytes: marker and length field just fit in one block.
    assert_eq!(
        digest_hex(&[b'a'; 55]),
        "9f4390f8d30c2dd92ec9f095b65e2b9ae9b0a925a5258e241c9f1e910f734318"
    );
}

#[test]
fn padding_boundary_56() {
    // 56 buffered bytes: the length field no longer fits; an extra block follows.
    assert_eq!(
        digest_hex(&[b'a'; 56]),
        "b35439a4ac6f0948b6d6f9e3c6af0f5f590ce20f1bde7090ef7970686ec6738a"
    );
}

#[test]
fn padding_boundary_57() {
    assert_eq!(
        digest_hex(&[b'a'; 57]),
        "f13b2d724659eb3bf47f2dd6af1accc87b81f09f59f2b75e5c0bed6589dfe8c6"
    );
}

#[test]
fn padding_boundary_63() {
    assert_eq!(
        digest_hex(&[b'a'; 63]),
        "7d3e74a05d7db15bce4ad9ec0658ea98e3f06eeecf16b4c6fff2da457ddc2f34"
    );
}

#[test]
fn exactly_one_block() {
    assert_eq!(
        digest_hex(&[b'a'; 64]),
        "ffe054fe7ae0cb6dc65c3af9b61d5209f439851db43d0ba5997337df154668eb"
    );
}

#[test]
fn block_plus_55() {
    assert_eq!(
        digest_hex(&[b'a'; 119]),
        "31eba51c313a5c08226adf18d4a359cfdfd8d2e816b13f4af952f7ea6584dcfb"
    );
}

#[test]
fn exactly_two_blocks() {
    assert_eq!(
        digest_hex(&[b'a'; 128]),
        "6836cf13bac400e9105071cd6af47084dfacad4e5e302c94bfed24e013afb73e"
    );
}

#[test]
fn million_a() {
    let data = vec![b'a'; 1_000_000];
    let mut ctx = Sha256Ctx::new();
    // Feed in 10000-byte chunks, as a streaming caller would.
    for chunk in data.chunks(10_000) {
        ctx.update(chunk);
    }
    let digest = ctx.finalize();
    assert_eq!(
        hex_of(&digest),
        "cdc76e5c9914fb9281a1c7e284d73e67f1809a48a497200e046d39ccc7112cd0"
    );
}

#[test]
fn streaming_equivalence_small_splits() {
    let whole = digest_hex(b"abc");
    assert_eq!(digest_hex_chunked(b"abc", &[0, 1, 2]), whole);
    assert_eq!(digest_hex_chunked(b"abc", &[1, 1, 1]), whole);
    assert_eq!(digest_hex_chunked(b"abc", &[3, 0]), whole);
    assert_eq!(digest_hex_chunked(b"abc", &[0, 0, 3]), whole);
}

#[test]
fn streaming_equivalence_block_boundaries() {
    let data = [b'x'; 200];
    let whole = digest_hex(&data);
    // Splits landing exactly on the 64-byte block boundary, straddling it,
    // and just before it.
    assert_eq!(digest_hex_chunked(&data, &[64, 136]), whole);
    assert_eq!(digest_hex_chunked(&data, &[63, 137]), whole);
    assert_eq!(digest_hex_chunked(&data, &[65, 135]), whole);
    assert_eq!(digest_hex_chunked(&data, &[64, 64, 72]), whole);
    assert_eq!(digest_hex_chunked(&data, &[1, 62, 1, 136]), whole);
    assert_eq!(digest_hex_chunked(&data, &[128, 0, 72]), whole);
}

#[test]
fn streaming_equivalence_every_split_of_two_blocks() {
    let data = [b'q'; 130];
    let whole = digest_hex(&data);
    for k in 0..=data.len() {
        assert_eq!(digest_hex_chunked(&data, &[k, data.len() - k]), whole);
    }
}

#[test]
fn hex_encoding_idempotent_and_well_formed() {
    let mut ctx = Sha256Ctx::new();
    ctx.update(b"abc");
    let digest = ctx.finalize();
    let first = sha256_to_hex(&digest);
    let second = sha256_to_hex(&digest);
    assert_eq!(first, second);
    assert_eq!(first[64], 0);
    for &c in &first[..64] {
        assert!(c.is_ascii_digit() || (b'a'..=b'f').contains(&c));
    }
}

#[test]
fn hex_encoding_known_bytes() {
    let mut digest = [0u8; 32];
    digest[0] = 0x00;
    digest[1] = 0x01;
    digest[2] = 0x9f;
    digest[3] = 0xff;
    digest[31] = 0xab;
    let hex = sha256_to_hex(&digest);
    assert_eq!(&hex[..8], b"00019fff");
    assert_eq!(&hex[62..64], b"ab");
    assert_eq!(hex[64], 0);
}

#[test]
fn contexts_are_independent() {
    let mut c1 = Sha256Ctx::new();
    let mut c2 = Sha256Ctx::new();
    // Interleave updates with different inputs: neither context may observe
    // the other's state.
    c1.update(b"abc");
    c2.update(b"hello ");
    c1.update(b"");
    c2.update(b"world");
    let d1 = c1.finalize();
    let d2 = c2.finalize();
    assert_eq!(
        hex_of(&d1),
        "ba7816bf8f01cfea414140de5dae2223b00361a396177a9cb410ff61f20015ad"
    );
    assert_eq!(
        hex_of(&d2),
        "b94d27b9934d3e08a52e52d7da7dabfac484efe37a5380ee9088f7ace2efcde9"
    );
}

#[test]
fn init_resets_for_a_fresh_message() {
    let mut ctx = Sha256Ctx::new();
    ctx.update(b"something else entirely");
    let _ = ctx.finalize();
    ctx.init();
    ctx.update(b"abc");
    let digest = ctx.finalize();
    assert_eq!(
        hex_of(&digest),
        "ba7816bf8f01cfea414140de5dae2223b00361a396177a9cb410ff61f20015ad"
    );
}

#[test]
fn bits_absorbed_counts_input() {
    let mut ctx = Sha256Ctx::new();
    assert_eq!(ctx.bits_absorbed(), 0);
    ctx.update(b"abc");
    assert_eq!(ctx.bits_absorbed(), 24);
    ctx.update(&[0u8; 100]);
    assert_eq!(ctx.bits_absorbed(), 824);
}

#[test]
fn word_primitives() {
    assert_eq!(rotr(0x8000_0000, 1), 0x4000_0000);
    assert_eq!(rotr(0x0000_0001, 1), 0x8000_0000);
    assert_eq!(rotr(0x1234_5678, 16), 0x5678_1234);
    assert_eq!(ch(0xffff_ffff, 0xaaaa_aaaa, 0x5555_5555), 0xaaaa_aaaa);
    assert_eq!(ch(0x0000_0000, 0xaaaa_aaaa, 0x5555_5555), 0x5555_5555);
    assert_eq!(maj(0xffff_ffff, 0xffff_ffff, 0x0000_0000), 0xffff_ffff);
    assert_eq!(maj(0xf0f0_f0f0, 0x0000_0000, 0x0000_ffff), 0x0000_f0f0);
    assert_eq!(bsig0(0x0000_0001), (1u32 << 30) | (1 << 19) | (1 << 10));
    assert_eq!(bsig1(0x0000_0001), (1u32 << 26) | (1 << 21) | (1 << 7));
    assert_eq!(ssig0(0x0000_0008), (1u32 << 28) | (1 << 17) | 1);
    assert_eq!(ssig1(0x0000_0000), 0);
}
