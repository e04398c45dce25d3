//! The arguments of the two entry points: which of them is the fallback
//! hook, the extension hook, and the options.

use vstd::prelude::*;

verus! {

/// The name that an argument is given by.
#[derive(Clone, Copy, Debug, PartialEq, Eq, Structural)]
pub enum Keyword {
    /// `default`: the fallback hook of encoding.
    Default,
    /// `ext_hook`: the extension hook of decoding.
    ExtHook,
    /// `option`: the options.
    Option,
    /// Any other name.
    Other,
}

/// Why the arguments of an entry point are refused.
#[derive(Clone, Copy, Debug, PartialEq, Eq, Structural)]
pub enum ArgError {
    /// The value to encode or the bytes to decode are missing.
    MissingObj,
    /// Decoding was given more than its one argument by position.
    TooManyPositional,
    /// An argument has a name that the entry point does not know.
    UnexpectedKeyword,
    /// The fallback hook is given twice.
    MultipleDefault,
    /// The options are given twice.
    MultipleOption,
}

/// Where an argument stands.
#[derive(Clone, Copy, Debug, PartialEq, Eq, Structural)]
pub enum Place {
    /// Among the arguments by position, at this place.
    Positional(usize),
    /// Among the arguments by name, under the name at this place.
    Named(usize),
}

/// Where the arguments of an entry point stand.
#[derive(Clone, Copy, Debug, PartialEq, Eq, Structural)]
pub struct Places {
    /// The place of the hook, where one is given.
    pub hook: Option<Place>,
    /// The place of the options, where they are given.
    pub option: Option<Place>,
}

/// The places of the arguments of encoding after the first `upto` names
/// were looked at, starting from the places `start` that the arguments by
/// position gave.
pub open spec fn packb_scan(
    positional: nat,
    names: Seq<Keyword>,
    upto: nat,
    start: Places,
) -> Result<Places, ArgError>
    decreases upto,
{
    if upto == 0 || upto > names.len() {
        Ok(start)
    } else {
        match packb_scan(positional, names, (upto - 1) as nat, start) {
            Err(e) => Err(e),
            Ok(places) => match names[upto - 1] {
                Keyword::Default => if places.hook is Some {
                    Err(ArgError::MultipleDefault)
                } else {
                    Ok(Places { hook: Some(Place::Named((upto - 1) as usize)), ..places })
                },
                Keyword::Option => if places.option is Some {
                    Err(ArgError::MultipleOption)
                } else {
                    Ok(Places { option: Some(Place::Named((upto - 1) as usize)), ..places })
                },
                _ => Err(ArgError::UnexpectedKeyword),
            },
        }
    }
}

/// The places of the arguments of encoding: the value first, then the hook
/// and the options by position or by name, each once at most.
pub open spec fn packb_places(positional: nat, names: Seq<Keyword>) -> Result<Places, ArgError> {
    if positional == 0 {
        Err(ArgError::MissingObj)
    } else {
        packb_scan(
            positional,
            names,
            names.len(),
            Places {
                hook: if positional >= 2 {
                    Some(Place::Positional(1))
                } else {
                    None
                },
                option: if positional >= 3 {
                    Some(Place::Positional(2))
                } else {
                    None
                },
            },
        )
    }
}

/// Finds the hook and the options among the arguments of encoding.
pub fn packb_args(positional: usize, names: &Vec<Keyword>) -> (r: Result<Places, ArgError>)
    ensures
        r == packb_places(positional as nat, names@),
{
    if positional == 0 {
        return Err(ArgError::MissingObj);
    }
    let mut places = Places {
        hook: if positional >= 2 {
            Some(Place::Positional(1))
        } else {
            None
        },
        option: if positional >= 3 {
            Some(Place::Positional(2))
        } else {
            None
        },
    };
    let ghost start = places;
    let mut i: usize = 0;
    while i < names.len()
        invariant
            i <= names@.len(),
            positional >= 1,
            start == (Places {
                hook: if positional >= 2 {
                    Some(Place::Positional(1))
                } else {
                    None
                },
                option: if positional >= 3 {
                    Some(Place::Positional(2))
                } else {
                    None
                },
            }),
            packb_scan(positional as nat, names@, i as nat, start) == Ok::<Places, ArgError>(
                places,
            ),
        decreases names@.len() - i,
    {
        match names[i] {
            Keyword::Default => {
                if places.hook.is_some() {
                    proof {
                        lemma_packb_scan_stops(
                            positional as nat,
                            names@,
                            (i + 1) as nat,
                            names@.len(),
                            start,
                        );
                    }
                    return Err(ArgError::MultipleDefault);
                }
                places.hook = Some(Place::Named(i));
            },
            Keyword::Option => {
                if places.option.is_some() {
                    proof {
                        lemma_packb_scan_stops(
                            positional as nat,
                            names@,
                            (i + 1) as nat,
                            names@.len(),
                            start,
                        );
                    }
                    return Err(ArgError::MultipleOption);
                }
                places.option = Some(Place::Named(i));
            },
            _ => {
                proof {
                    lemma_packb_scan_stops(
                        positional as nat,
                        names@,
                        (i + 1) as nat,
                        names@.len(),
                        start,
                    );
                }
                return Err(ArgError::UnexpectedKeyword);
            },
        }
        i = i + 1;
    }
    Ok(places)
}

/// An error among the first names is the error of all.
proof fn lemma_packb_scan_stops(
    positional: nat,
    names: Seq<Keyword>,
    m: nat,
    n: nat,
    start: Places,
)
    requires
        m <= n <= names.len(),
        packb_scan(positional, names, m, start) is Err,
    ensures
        packb_scan(positional, names, n, start) == packb_scan(positional, names, m, start),
    decreases n - m,
{
    if m < n {
        lemma_packb_scan_stops(positional, names, m, (n - 1) as nat, start);
    }
}

/// The places of the arguments of decoding after the first `upto` names
/// were looked at. A name that is given twice counts where it is given
/// last.
pub open spec fn unpackb_scan(positional: nat, names: Seq<Keyword>, upto: nat) -> Result<
    Places,
    ArgError,
>
    decreases upto,
{
    if upto == 0 || upto > names.len() {
        Ok(Places { hook: None, option: None })
    } else {
        match unpackb_scan(positional, names, (upto - 1) as nat) {
            Err(e) => Err(e),
            Ok(places) => match names[upto - 1] {
                Keyword::ExtHook => Ok(
                    Places { hook: Some(Place::Named((upto - 1) as usize)), ..places },
                ),
                Keyword::Option => Ok(
                    Places { option: Some(Place::Named((upto - 1) as usize)), ..places },
                ),
                _ => Err(ArgError::UnexpectedKeyword),
            },
        }
    }
}

/// The places of the arguments of decoding: the bytes alone by position,
/// the hook and the options by name.
pub open spec fn unpackb_places(positional: nat, names: Seq<Keyword>) -> Result<Places, ArgError> {
    if positional == 0 {
        Err(ArgError::MissingObj)
    } else if positional > 1 {
        Err(ArgError::TooManyPositional)
    } else {
        unpackb_scan(positional, names, names.len())
    }
}

/// Finds the hook and the options among the arguments of decoding.
pub fn unpackb_args(positional: usize, names: &Vec<Keyword>) -> (r: Result<Places, ArgError>)
    ensures
        r == unpackb_places(positional as nat, names@),
{
    if positional != 1 {
        return if positional > 1 {
            Err(ArgError::TooManyPositional)
        } else {
            Err(ArgError::MissingObj)
        };
    }
    let mut places = Places { hook: None, option: None };
    let mut i: usize = 0;
    while i < names.len()
        invariant
            i <= names@.len(),
            positional == 1,
            unpackb_scan(positional as nat, names@, i as nat) == Ok::<Places, ArgError>(places),
        decreases names@.len() - i,
    {
        match names[i] {
            Keyword::ExtHook => {
                places.hook = Some(Place::Named(i));
            },
            Keyword::Option => {
                places.option = Some(Place::Named(i));
            },
            _ => {
                proof {
                    lemma_unpackb_scan_stops(
                        positional as nat,
                        names@,
                        (i + 1) as nat,
                        names@.len(),
                    );
                }
                return Err(ArgError::UnexpectedKeyword);
            },
        }
        i = i + 1;
    }
    Ok(places)
}

/// An error among the first names is the error of all.
proof fn lemma_unpackb_scan_stops(positional: nat, names: Seq<Keyword>, m: nat, n: nat)
    requires
        m <= n <= names.len(),
        unpackb_scan(positional, names, m) is Err,
    ensures
        unpackb_scan(positional, names, n) == unpackb_scan(positional, names, m),
    decreases n - m,
{
    if m < n {
        lemma_unpackb_scan_stops(positional, names, m, (n - 1) as nat);
    }
}

} // verus!
