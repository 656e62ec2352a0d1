//! Log lines, messages, and the platform of a page.

use starstream_run::cause::Cause;
use starstream_run::codec::{EncodeError, Unsupported};
use starstream_run::decode::ReadError;
use starstream_run::error::{Stage, Step};
use starstream_run::json::{Expected, Json, JsonError};
use starstream_run::log::{level_of, log_class};
use starstream_run::platform::{plan_map, plan_unmap, Mapping, Tls, PAGE_SIZE};
use starstream_run::session::RequestError;

#[test]
fn lines_are_classed_by_their_level() {
    assert_eq!(log_class("ERROR a: b"), "log-line log-error");
    assert_eq!(log_class(" WARN a: b"), "log-line log-warn");
    assert_eq!(log_class("\u{a0}INFO\tb"), "log-line log-info");
    assert_eq!(log_class("DEBUG"), "log-line log-debug");
    assert_eq!(log_class("TRACE\u{2003}x"), "log-line log-trace");
    assert_eq!(log_class("ERRORS a"), "log-line");
    assert_eq!(log_class("a ERROR"), "log-line");
    assert_eq!(log_class(""), "log-line");
    assert_eq!(level_of("  one two"), "one");
    assert_eq!(level_of("  "), "");
    // A zero-width space is no white space.
    assert_eq!(level_of("\u{200b}a b"), "\u{200b}a");
    for c in ['\t', '\u{b}', '\u{85}', '\u{1680}', '\u{200a}', '\u{2029}', '\u{205f}', '\u{3000}'] {
        assert_eq!(level_of(&format!("{c}a{c}b")), "a");
    }
}

#[test]
fn mappings_are_allocated_and_freed_alike() {
    assert_eq!(plan_map(0), Some(Mapping::Dangling(PAGE_SIZE)));
    assert_eq!(plan_unmap(0), None);
    assert_eq!(plan_map(1), Some(Mapping::Allocate { size: 1, align: PAGE_SIZE }));
    assert_eq!(plan_unmap(1), Some((1, PAGE_SIZE)));
    assert_eq!(plan_map(usize::MAX), None);
    assert_eq!(plan_unmap(usize::MAX), None);
    let most = isize::MAX as usize - (PAGE_SIZE - 1);
    assert!(std::alloc::Layout::from_size_align(most, PAGE_SIZE).is_ok());
    assert!(std::alloc::Layout::from_size_align(most + 1, PAGE_SIZE).is_err());
    assert_eq!(plan_unmap(most), Some((most, PAGE_SIZE)));
    assert_eq!(plan_map(most + 1), None);
}

#[test]
fn words_are_kept_apart() {
    let mut tls = Tls::new();
    assert_eq!(tls.get(0), 0);
    tls.set(0, 7);
    tls.set(1, 8);
    assert_eq!((tls.get(0), tls.get(1)), (7, 8));
    tls.set(0, 9);
    assert_eq!((tls.get(0), tls.get(1)), (9, 8));
}

#[test]
fn errors_are_worded() {
    assert_eq!(Cause::NotAnInstance.text(), "export is not an instance");
    assert_eq!(Step::CallMethod.text(), Some("failed to call method"));
    assert_eq!(Step::LoadComponent.text(), None);
    assert_eq!(Stage::AddAdapter.text(), "failed to add WASI adapter");
    let inner = || Box::new(EncodeError::Mismatch);
    for (e, s) in [
        (EncodeError::Mismatch, "value type mismatch"),
        (EncodeError::Field("a".to_string(), inner()), "failed to encode `a` field"),
        (EncodeError::OkMissing, "`result::ok` value missing"),
        (
            EncodeError::Unsupported(Unsupported::Resources),
            "encoding resources not supported by Starstream",
        ),
    ] {
        assert_eq!(e.text(), s);
    }
    assert_eq!(
        ReadError::Unsupported(Unsupported::ErrorContexts).text(),
        "decoding error contexts not supported by Starstream"
    );
    assert_eq!(ReadError::InvalidBool(2).text(), "invalid bool value byte `2`");
    assert_eq!(
        ReadError::InvalidOptionStatus(255).text(),
        "invalid option status byte value `255`"
    );
    assert_eq!(
        ReadError::InvalidResultStatus(3).text(),
        "invalid result status byte value `3`"
    );
    assert_eq!(ReadError::Overflow(16).text(), "varint overflows 16-bit integer");
    assert_eq!(ReadError::UnknownVariant(120).text(), "unknown variant discriminant `120`");
    assert_eq!(ReadError::UnknownEnum(0).text(), "unknown enum discriminant `0`");
    let json = Json::Null;
    assert_eq!(
        JsonError::Expected(Expected::ArrayForList, &json).text("null"),
        "expected an array for list, got `null`"
    );
    assert_eq!(
        JsonError::TupleSize { expected: 2, got: 13 }.text(""),
        "expected a 2-tuple, got 13 elements"
    );
    assert_eq!(
        JsonError::MissingField("a".to_string()).text(""),
        "missing record field `a`"
    );
    assert_eq!(RequestError::NoStorage.text(""), "this resource has no storage");
    assert_eq!(RequestError::Refused(Cause::NotAFunction).text(""), "export is not a function");
}
