//! The fallback hook: the caller's function for values of no kind that is
//! encoded as it is.

use crate::serialize::encoding::HookModel;
use crate::serialize::serializer::RECURSION_LIMIT;
use crate::value::{Value, ValueView};
use vstd::prelude::*;

verus! {

/// Why a call of the fallback hook gave no value.
#[derive(Clone, Copy, Debug, PartialEq, Eq, Structural)]
pub enum Error {
    /// There is no hook, or the hook failed on the value.
    InvalidType,
    /// The hook was entered more often in a row than the ceiling.
    RecursionLimitReached,
}

/// The view of what a hook hands back.
pub open spec fn outcome_view(r: Option<Value>) -> Option<ValueView> {
    match r {
        Some(v) => Some(v@),
        None => None,
    }
}

/// The fallback hook of an encoding call, where there is one.
pub struct DefaultHook<F> {
    pub inner: Option<F>,
}

impl<F: Fn(&Value) -> Option<Value>> DefaultHook<F> {
    /// The hook `default`, or no hook.
    pub fn new(default: Option<F>) -> (hook: Self)
        ensures
            hook == Self::new_spec(default),
    {
        DefaultHook { inner: default }
    }

    /// The hook `default`, or no hook.
    pub open spec fn new_spec(default: Option<F>) -> Self {
        DefaultHook { inner: default }
    }

    /// Whether the hook may be called with any value.
    pub open spec fn callable(&self) -> bool {
        match self.inner {
            Some(f) => forall|v: &Value| call_requires(f, (v,)),
            None => true,
        }
    }

    /// Whether `model` says what the hook hands back: whether every value
    /// that a call can hand back has the view that `model` gives for the
    /// view of the argument.
    pub open spec fn described_by(&self, model: HookModel) -> bool {
        match self.inner {
            Some(f) => forall|a: &Value, r: Option<Value>| #[trigger]
                call_ensures(f, (a,), r) ==> outcome_view(r) == model(a@),
            None => true,
        }
    }

    /// The hook as a contract sees it, where `model` says what it hands
    /// back: `model` where there is a hook, nothing where there is none.
    pub open spec fn hook(&self, model: HookModel) -> Option<HookModel> {
        match self.inner {
            Some(_) => Some(model),
            None => None,
        }
    }

    /// What entering the hook gives, for a hook with the model `hook`,
    /// after `calls` calls in a row.
    pub open spec fn entered(hook: Option<HookModel>, v: ValueView, calls: nat) -> Result<
        ValueView,
        Error,
    > {
        match hook {
            None => Err(Error::InvalidType),
            Some(h) => if calls >= 255 {
                Err(Error::RecursionLimitReached)
            } else {
                match h(v) {
                    Some(next) => Ok(next),
                    None => Err(Error::InvalidType),
                }
            },
        }
    }

    /// Calls the hook with `value`, unless it was entered `calls` times in
    /// a row already and that is the ceiling.
    pub fn enter_call(&self, value: &Value, calls: u8) -> (r: Result<Value, Error>)
        requires
            self.callable(),
        ensures
            self.inner is None ==> r == Err::<Value, Error>(Error::InvalidType),
            self.inner is Some && calls == RECURSION_LIMIT ==> r == Err::<Value, Error>(
                Error::RecursionLimitReached,
            ),
            self.inner is Some && calls < RECURSION_LIMIT ==> !(r matches Err(
                Error::RecursionLimitReached,
            )),
            forall|model: HookModel| #[trigger]
                self.described_by(model) ==> match r {
                    Ok(next) => Self::entered(self.hook(model), value@, calls as nat) == Ok::<
                        ValueView,
                        Error,
                    >(next@),
                    Err(e) => Self::entered(self.hook(model), value@, calls as nat) == Err::<
                        ValueView,
                        Error,
                    >(e),
                },
    {
        match &self.inner {
            Some(callable) => {
                if calls == RECURSION_LIMIT {
                    return Err(Error::RecursionLimitReached);
                }
                let out = callable(value);
                proof {
                    let f = self.inner.unwrap();
                    assert(call_ensures(f, (value,), out));
                }
                match out {
                    Some(next) => Ok(next),
                    None => Err(Error::InvalidType),
                }
            },
            None => Err(Error::InvalidType),
        }
    }
}

} // verus!
