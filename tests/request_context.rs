use taxonomy_index::context::{ctx_from_extension, ctx_resolve, Ctx, CtxExtError, CtxW, Error};

#[test]
fn root_user_has_no_context() {
    assert_eq!(Ctx::new(0).unwrap_err(), Error::CtxExt(CtxExtError::CtxCannotNewRootCtx));
}

#[test]
fn context_keeps_user() {
    assert_eq!(Ctx::new(42).unwrap().user_id(), 42);
    assert_eq!(Ctx::new(-3).unwrap().user_id(), -3);
}

#[test]
fn resolve_gives_user_one() {
    assert_eq!(ctx_resolve().unwrap().0.user_id(), 1);
}

#[test]
fn extension_missing_or_failed() {
    assert_eq!(
        ctx_from_extension(None).unwrap_err(),
        Error::CtxExt(CtxExtError::CtxNotInRequestExt)
    );
    let failed: Result<CtxW, CtxExtError> = Err(CtxExtError::ModelAccessError("db down".to_string()));
    assert_eq!(
        ctx_from_extension(Some(&failed)).unwrap_err(),
        Error::CtxExt(CtxExtError::ModelAccessError("db down".to_string()))
    );
    let ok: Result<CtxW, CtxExtError> = Ok(CtxW(Ctx::new(5).unwrap()));
    assert_eq!(ctx_from_extension(Some(&ok)).unwrap().0.user_id(), 5);
}

#[test]
fn error_conversion_and_name() {
    let e: Error = CtxExtError::TokenNotInCookie.into();
    assert_eq!(e, Error::CtxExt(CtxExtError::TokenNotInCookie));
    assert_eq!(e.as_ref(), "CtxExt");
    let d = CtxExtError::CtxCreateFail("x".to_string()).duplicate();
    assert_eq!(d, CtxExtError::CtxCreateFail("x".to_string()));
}
