//! Method hashes and host data.

use starstream_run::builtin::Host as _;
use starstream_run::cardano::Host as _;
use starstream_run::host::{hash_words, method_hash, source_name, CardanoCtx, Ctx};

#[test]
fn source_names() {
    assert_eq!(source_name("[method]utxo.plus-chips"), "plus_chips");
    assert_eq!(source_name("a.b.c-d-e"), "c_d_e");
    assert_eq!(source_name("finish"), "finish");
    assert_eq!(source_name("trailing."), "");
    assert_eq!(source_name(""), "");
}

#[test]
fn words_are_little_endian() {
    let digest: Vec<u8> = (0u8..32).collect();
    assert_eq!(
        hash_words(&digest),
        (
            0x0706_0504_0302_0100,
            0x0f0e_0d0c_0b0a_0908,
            0x1716_1514_1312_1110,
            0x1f1e_1d1c_1b1a_1918,
        )
    );
}

#[test]
fn hash_of_abc() {
    // SHA-256 of `abc` starts with ba7816bf 8f01cfea and ends with f20015ad.
    let (a, _, _, d) = method_hash("[method]utxo.abc");
    assert_eq!(a, 0xeacf_018f_bf16_78ba);
    assert_eq!(d, 0xad15_00f2_61ff_10b4);
}

#[test]
fn hash_ignores_prefix_and_hyphens() {
    assert_eq!(method_hash("[method]utxo.plus-chips"), method_hash("plus_chips"));
    assert_ne!(method_hash("plus_chips"), method_hash("plus_mult"));
}

#[test]
fn declared_hashes_are_kept_once() {
    let mut ctx = Ctx::new(CardanoCtx { block_height: 7, current_slot: -9 });
    assert!(!ctx.implements((1, 2, 3, 4)));
    ctx.implements_method((1, 2, 3, 4)).unwrap();
    ctx.implements_method((1, 2, 3, 4)).unwrap();
    ctx.implements_method((1, 2, 3, 5)).unwrap();
    assert!(ctx.implements((1, 2, 3, 4)));
    assert!(ctx.implements((1, 2, 3, 5)));
    assert!(!ctx.implements((4, 3, 2, 1)));
    assert_eq!(ctx.count(), 2);
    let copy = ctx.clone();
    assert!(copy.implements((1, 2, 3, 4)) && copy.count() == 2);
    assert_eq!(Ctx::default().count(), 0);
    assert_eq!(Ctx::default().block_height(), 0);
    assert_eq!(ctx.block_height(), 7);
    assert_eq!(ctx.current_slot(), -9);
}
