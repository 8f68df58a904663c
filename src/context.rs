use vstd::prelude::*;

verus! {

/// Why a request context could not be had.
#[derive(Clone, Debug, PartialEq)]
pub enum CtxExtError {
    TokenNotInCookie,
    TokenWrongFormat,
    UserNotFound,
    ModelAccessError(String),
    FailValidate,
    CannotSetTokenCookie,
    CtxNotInRequestExt,
    CtxCannotNewRootCtx,
    CtxCreateFail(String),
}

/// The errors of the request layer.
#[derive(Debug, PartialEq)]
pub enum Error {
    CtxExt(CtxExtError),
}

impl From<CtxExtError> for Error {
    fn from(e: CtxExtError) -> (r: Error)
        ensures
            r == Error::CtxExt(e),
    {
        Error::CtxExt(e)
    }
}

impl vstd::std_specs::convert::FromSpecImpl<CtxExtError> for Error {
    open spec fn obeys_from_spec() -> bool {
        true
    }

    open spec fn from_spec(e: CtxExtError) -> Error {
        Error::CtxExt(e)
    }
}

impl CtxExtError {
    /// A copy of the error, payload included.
    pub fn duplicate(&self) -> (r: CtxExtError)
        ensures
            r == *self,
    {
        match self {
            CtxExtError::TokenNotInCookie => CtxExtError::TokenNotInCookie,
            CtxExtError::TokenWrongFormat => CtxExtError::TokenWrongFormat,
            CtxExtError::UserNotFound => CtxExtError::UserNotFound,
            CtxExtError::ModelAccessError(m) => CtxExtError::ModelAccessError(m.clone()),
            CtxExtError::FailValidate => CtxExtError::FailValidate,
            CtxExtError::CannotSetTokenCookie => CtxExtError::CannotSetTokenCookie,
            CtxExtError::CtxNotInRequestExt => CtxExtError::CtxNotInRequestExt,
            CtxExtError::CtxCannotNewRootCtx => CtxExtError::CtxCannotNewRootCtx,
            CtxExtError::CtxCreateFail(m) => CtxExtError::CtxCreateFail(m.clone()),
        }
    }
}

impl Error {
    /// The name of the variant.
    pub fn as_ref(&self) -> (r: &'static str)
        ensures
            r@ == "CtxExt"@,
    {
        proof {
            reveal_strlit("CtxExt");
        }
        match self {
            Error::CtxExt(_) => "CtxExt",
        }
    }
}

/// The context of a request: who makes it.
#[derive(Clone, Debug)]
pub struct Ctx {
    user_id: i64,
}

impl Ctx {
    /// The user the context belongs to.
    pub closed spec fn user(&self) -> i64 {
        self.user_id
    }

    /// A context for `user_id`; the root user, 0, cannot have one.
    pub fn new(user_id: i64) -> (r: Result<Ctx, Error>)
        ensures
            user_id == 0 <==> r == Err::<Ctx, Error>(Error::CtxExt(CtxExtError::CtxCannotNewRootCtx)),
            user_id != 0 ==> (r matches Ok(c) && c.user() == user_id),
    {
        if user_id == 0 {
            Err(Error::CtxExt(CtxExtError::CtxCannotNewRootCtx))
        } else {
            Ok(Ctx { user_id })
        }
    }

    pub fn user_id(&self) -> (r: i64)
        ensures
            r == self.user(),
    {
        self.user_id
    }
}

/// A context as handed to request handlers.
#[derive(Debug, Clone)]
pub struct CtxW(pub Ctx);

/// What resolving a context gives.
pub type CtxExtResult = Result<CtxW, CtxExtError>;

/// Resolves the context of a request: every request runs as user 1.
pub fn ctx_resolve() -> (r: CtxExtResult)
    ensures
        r matches Ok(w) && w.0.user() == 1,
{
    match Ctx::new(1) {
        Ok(c) => Ok(CtxW(c)),
        Err(e) => Err(CtxExtError::CtxCreateFail(String::from_str(e.as_ref()))),
    }
}

/// What a handler gets from the context stored with its request: the stored
/// context, the stored resolution error, or `CtxNotInRequestExt` where nothing
/// was stored.
pub fn ctx_from_extension(stored: Option<&CtxExtResult>) -> (r: Result<CtxW, Error>)
    ensures
        match stored {
            None => r == Err::<CtxW, Error>(Error::CtxExt(CtxExtError::CtxNotInRequestExt)),
            Some(Ok(w)) => r matches Ok(v) && v.0.user() == w.0.user(),
            Some(Err(e)) => r == Err::<CtxW, Error>(Error::CtxExt(*e)),
        },
{
    match stored {
        None => Err(Error::CtxExt(CtxExtError::CtxNotInRequestExt)),
        Some(Ok(w)) => Ok(CtxW(Ctx { user_id: w.0.user_id })),
        Some(Err(e)) => Err(Error::CtxExt(e.duplicate())),
    }
}

} // verus!
