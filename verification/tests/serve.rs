//! Serving the methods of a UTXO.

use bytes::BytesMut;
use starstream_run::builtin::Host as _;
use starstream_run::cause::Cause;
use starstream_run::codec::EncodeError;
use starstream_run::decode::ReadError;
use starstream_run::discovery::Catalog;
use starstream_run::host::{method_hash, CardanoCtx, Ctx};
use starstream_run::serve::{
    decode_params, encode_results, served_methods, SelectError, ServeError,
};
use starstream_run::types::{ComponentType, FuncType, Item, Type};
use starstream_run::value::Value;
use wasmtime::component::ResourceType;

struct Thing;

fn text(s: &str) -> String {
    s.to_string()
}

fn method() -> FuncType {
    FuncType {
        params: vec![
            (text("self"), Type::Borrow(ResourceType::host::<Thing>())),
            (text("a"), Type::U16),
            (text("b"), Type::String),
        ],
        results: vec![Type::U8, Type::Bool],
        is_async: false,
    }
}

/// Host data of a guest that declared these methods.
fn declaring(exports: &[&str]) -> Ctx {
    let mut ctx = Ctx::new(CardanoCtx { block_height: 0, current_slot: 0 });
    for export in exports {
        ctx.implements_method(method_hash(export)).expect("not taken");
    }
    ctx
}

#[test]
fn arguments_are_decoded_behind_the_receiver() {
    let mut bytes = BytesMut::from(&[0x80, 1, 2, b'h', b'i', 9][..]);
    assert_eq!(
        decode_params(&mut bytes, &method()),
        Ok(vec![Value::U16(128), Value::String(text("hi"))])
    );
    assert_eq!(bytes.to_vec(), vec![9]);
    let mut bytes = BytesMut::from(&[0x80, 1, 2, b'h'][..]);
    let fault = decode_params(&mut bytes, &method()).expect_err("nothing is missing");
    assert_eq!(fault.error, ReadError::UnexpectedEof);
    assert_eq!(fault.name, method().params[2].0);
    assert_eq!(fault.text(), format!("failed to decode parameter `{}`", method().params[2].0));
    assert_eq!(bytes.to_vec(), vec![b'h']);
    let mut bytes = BytesMut::from(&[0x80][..]);
    let fault = decode_params(&mut bytes, &method()).expect_err("nothing is missing");
    assert_eq!(fault.name, method().params[1].0);
    let mut bytes = BytesMut::from(&[7][..]);
    let none = FuncType { params: vec![], results: vec![], is_async: false };
    assert_eq!(decode_params(&mut bytes, &none), Ok(vec![]));
    assert_eq!(bytes.to_vec(), vec![7]);
}

#[test]
fn results_are_encoded_in_order() {
    let mut bytes = BytesMut::from(&[1][..]);
    assert_eq!(
        encode_results(&vec![Value::U8(5), Value::Bool(true)], &method(), &mut bytes),
        Ok(())
    );
    assert_eq!(bytes.to_vec(), vec![1, 5, 1]);
    let mut bytes = BytesMut::new();
    assert_eq!(
        encode_results(&vec![Value::U8(5), Value::U8(6)], &method(), &mut bytes),
        Err(EncodeError::Mismatch)
    );
    assert_eq!(bytes.to_vec(), vec![5]);
}

#[test]
fn what_is_written_as_results_is_read_as_arguments() {
    let values = vec![Value::U16(300), Value::String(text("x"))];
    let out = FuncType { params: vec![], results: vec![Type::U16, Type::String], is_async: false };
    let mut bytes = BytesMut::new();
    assert_eq!(encode_results(&values, &out, &mut bytes), Ok(()));
    assert_eq!(decode_params(&mut bytes, &method()), Ok(values));
}

#[test]
fn only_declared_methods_are_served() {
    let utxo = ResourceType::host::<Thing>();
    let borrowing = || {
        Item::Func(FuncType {
            params: vec![(text("self"), Type::Borrow(utxo))],
            results: vec![],
            is_async: false,
        })
    };
    let free = || Item::Func(FuncType { params: vec![], results: vec![], is_async: false });
    let exports = vec![(
        text("i"),
        Item::Instance(vec![
            (text("utxo"), Item::Resource(utxo)),
            (text("[method]utxo.one"), borrowing()),
            (text("[method]utxo.two-three"), borrowing()),
            (text("[method]utxo.broken"), free()),
            (text("[method]other.four"), borrowing()),
        ]),
    )];
    let catalog = Catalog {
        own: ComponentType { imports: vec![], exports: exports.clone() },
        ty: ComponentType { imports: vec![], exports },
    };
    let export = catalog.get_utxo("i").expect("no `utxo`");
    let served = |names: &[&str]| {
        served_methods(&catalog, &export, &declaring(names)).map(|methods| {
            methods.into_iter().map(|(name, f)| (name, text(f.name()))).collect::<Vec<_>>()
        })
    };
    assert_eq!(served(&[]), Ok(vec![]));
    assert_eq!(
        served(&["two_three"]),
        Ok(vec![(text("two-three"), text("[method]utxo.two-three"))])
    );
    assert_eq!(
        served(&["two_three", "one"]).map(|v| v.len()),
        Ok(2)
    );
    assert_eq!(served(&["broken"]), Err(ServeError::Refused(Cause::NoBorrow)));
    assert_eq!(
        served(&["four"]),
        Err(ServeError::UnexpectedName(text("[method]other.four")))
    );
}

#[test]
fn refusals_are_worded() {
    assert_eq!(
        SelectError::NothingExported.text(),
        "contract exports no instance owning a `utxo` resource"
    );
    assert_eq!(
        SelectError::Ambiguous(vec![text("a"), text("b"), text("c")]).text(),
        "contract exports multiple instances owning a `utxo` resource (`a`, `b`, `c`); \
         select one with `--utxo`"
    );
    assert_eq!(SelectError::Refused(Cause::ExportNotFound).text(), "export not found");
    assert_eq!(
        ServeError::UnexpectedName(text("x")).text(),
        "unexpected UTXO method name: x"
    );
    assert_eq!(ServeError::Refused(Cause::NotAFunction).text(), "export is not a function");
}
