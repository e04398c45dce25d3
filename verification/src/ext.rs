//! The extension value of the host: a tag and a payload, made from two
//! arguments.

use crate::value::{lemma_view, Value, ValueView};
use vstd::prelude::*;

verus! {

/// Why no extension value was made.
#[derive(Clone, Copy, Debug, PartialEq, Eq, Structural)]
pub enum ExtError {
    /// There are not exactly two arguments, or some are given by name.
    Arity,
    /// The first argument is no integer.
    TagMustBeInt,
    /// The second argument is no binary payload.
    DataMustBeBytes,
}

impl ExtError {
    /// The text that a caller is shown.
    pub open spec fn text(self) -> Seq<char> {
        match self {
            ExtError::Arity => "Ext.__new__() takes 2 positional arguments"@,
            ExtError::TagMustBeInt => "Ext.__new__() first argument must be int"@,
            ExtError::DataMustBeBytes => "Ext.__new__() second argument must be bytes"@,
        }
    }

    /// The text that a caller is shown.
    pub fn message(&self) -> (s: &'static str)
        ensures
            s@ == self.text(),
    {
        match self {
            ExtError::Arity => "Ext.__new__() takes 2 positional arguments",
            ExtError::TagMustBeInt => "Ext.__new__() first argument must be int",
            ExtError::DataMustBeBytes => "Ext.__new__() second argument must be bytes",
        }
    }
}

/// The tag of an extension value that is made from an integer of the
/// host: the integer itself where 64 bits hold it as a signed number, else
/// -1, which is no tag that is encoded.
pub open spec fn tag_of(n: int) -> i64 {
    if -0x8000_0000_0000_0000 <= n <= 0x7fff_ffff_ffff_ffff {
        n as i64
    } else {
        -1i64
    }
}

/// What making an extension value from arguments gives.
pub open spec fn ext_new_spec(args: Seq<ValueView>, keywords: nat) -> Result<ValueView, ExtError> {
    if args.len() != 2 || keywords != 0 {
        Err(ExtError::Arity)
    } else {
        match args[0] {
            ValueView::Int(n) => match args[1] {
                ValueView::Bytes(data) => Ok(ValueView::Ext { tag: tag_of(n), data }),
                _ => Err(ExtError::DataMustBeBytes),
            },
            ValueView::IntSubclass(n) => match args[1] {
                ValueView::Bytes(data) => Ok(ValueView::Ext { tag: tag_of(n), data }),
                _ => Err(ExtError::DataMustBeBytes),
            },
            _ => Err(ExtError::TagMustBeInt),
        }
    }
}

/// Makes an extension value from the arguments of its constructor: an
/// integer and a binary payload, and nothing given by name. Whether the tag
/// can be encoded is found out when it is encoded.
pub fn ext_new(args: Vec<Value>, keywords: usize) -> (r: Result<Value, ExtError>)
    ensures
        match r {
            Ok(v) => ext_new_spec(crate::value::values_view(args), keywords as nat) == Ok::<
                ValueView,
                ExtError,
            >(v@),
            Err(e) => ext_new_spec(crate::value::values_view(args), keywords as nat) == Err::<
                ValueView,
                ExtError,
            >(e),
        },
{
    let mut args = args;
    let ghost views = crate::value::values_view(args);
    proof {
        crate::value::lemma_values_view(args);
    }
    if args.len() != 2 || keywords != 0 {
        return Err(ExtError::Arity);
    }
    let data = args.pop();
    let tag = args.pop();
    match (tag, data) {
        (Some(tag), Some(data)) => {
            proof {
                lemma_view(tag);
                lemma_view(data);
            }
            let n = match tag {
                Value::Int(n) => n,
                Value::IntSubclass(n) => n,
                _ => {
                    return Err(ExtError::TagMustBeInt);
                },
            };
            match data {
                Value::Bytes(data) => {
                    let tag: i64 = if -0x8000_0000_0000_0000 <= n && n <= 0x7fff_ffff_ffff_ffff {
                        n as i64
                    } else {
                        -1
                    };
                    let out = Value::Ext { tag, data };
                    proof {
                        lemma_view(out);
                    }
                    Ok(out)
                },
                _ => Err(ExtError::DataMustBeBytes),
            }
        },
        _ => Err(ExtError::Arity),
    }
}

} // verus!
