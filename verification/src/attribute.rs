//! What the code generator decides: the configuration of a task from the
//! attribute's arguments, and the component types that a task works on.

use crate::trigger::DEFAULT_THRESHOLD_MS;
use vstd::prelude::*;

verus! {

/// One token of the instrumentation attribute's arguments.
#[derive(Debug)]
pub enum ArgToken {
    /// An identifier.
    Ident(String),
    /// The sign `=`.
    Equals,
    /// An integer literal: its value, or `None` where the value is larger
    /// than 64 bits hold.
    Integer(Option<u64>),
    /// Any other token.
    Other,
}

/// Why the arguments of the instrumentation attribute are refused.
#[derive(Debug, Clone, Copy, PartialEq, Eq, Structural)]
pub enum ArgsError {
    /// The arguments do not start with an identifier.
    ExpectedIdent,
    /// No `=` follows `threshold_ms`.
    ExpectedEquals,
    /// No integer literal follows the `=`.
    ExpectedInteger,
    /// The threshold is larger than 64 bits hold.
    IntegerTooLarge,
    /// Tokens follow where the arguments have ended.
    UnexpectedToken,
}

/// The configuration of one instrumented task.
#[derive(Debug, Clone, Copy, PartialEq, Eq, Structural)]
pub struct SnapshotArgs {
    /// A run that takes longer than this many milliseconds is captured.
    pub threshold_ms: u64,
}

/// The name of the one option that the attribute knows: `threshold_ms`.
pub open spec fn threshold_key() -> Seq<char> {
    seq!['t', 'h', 'r', 'e', 's', 'h', 'o', 'l', 'd', '_', 'm', 's']
}

/// What the arguments `tokens` configure.
///
/// Without arguments the threshold is the default. Otherwise the arguments
/// start with an identifier. After `threshold_ms` come `=` and the
/// threshold, an integer literal; any other identifier stands alone and
/// leaves the default in place.
pub open spec fn parsed(tokens: Seq<ArgToken>) -> Result<SnapshotArgs, ArgsError> {
    if tokens.len() == 0 {
        Ok(SnapshotArgs { threshold_ms: DEFAULT_THRESHOLD_MS })
    } else {
        match tokens[0] {
            ArgToken::Ident(name) => if name@ != threshold_key() {
                if tokens.len() == 1 {
                    Ok(SnapshotArgs { threshold_ms: DEFAULT_THRESHOLD_MS })
                } else {
                    Err(ArgsError::UnexpectedToken)
                }
            } else if tokens.len() < 2 || !(tokens[1] is Equals) {
                Err(ArgsError::ExpectedEquals)
            } else if tokens.len() < 3 {
                Err(ArgsError::ExpectedInteger)
            } else {
                match tokens[2] {
                    ArgToken::Integer(Some(threshold_ms)) => if tokens.len() == 3 {
                        Ok(SnapshotArgs { threshold_ms })
                    } else {
                        Err(ArgsError::UnexpectedToken)
                    },
                    ArgToken::Integer(None) => Err(ArgsError::IntegerTooLarge),
                    _ => Err(ArgsError::ExpectedInteger),
                }
            },
            _ => Err(ArgsError::ExpectedIdent),
        }
    }
}

impl SnapshotArgs {
    /// Reads the arguments of the instrumentation attribute.
    pub fn parse(tokens: &Vec<ArgToken>) -> (args: Result<SnapshotArgs, ArgsError>)
        ensures
            args == parsed(tokens@),
    {
        if tokens.len() == 0 {
            return Ok(SnapshotArgs { threshold_ms: DEFAULT_THRESHOLD_MS });
        }
        match &tokens[0] {
            ArgToken::Ident(name) => {
                proof {
                    reveal_strlit("threshold_ms");
                }
                let key = "threshold_ms".to_owned();
                assert(key@ =~= threshold_key());
                if *name != key {
                    if tokens.len() == 1 {
                        Ok(SnapshotArgs { threshold_ms: DEFAULT_THRESHOLD_MS })
                    } else {
                        Err(ArgsError::UnexpectedToken)
                    }
                } else if tokens.len() < 2 {
                    Err(ArgsError::ExpectedEquals)
                } else {
                    match &tokens[1] {
                        ArgToken::Equals => {
                            if tokens.len() < 3 {
                                Err(ArgsError::ExpectedInteger)
                            } else {
                                match &tokens[2] {
                                    ArgToken::Integer(Some(threshold_ms)) => {
                                        if tokens.len() == 3 {
                                            Ok(SnapshotArgs { threshold_ms: *threshold_ms })
                                        } else {
                                            Err(ArgsError::UnexpectedToken)
                                        }
                                    },
                                    ArgToken::Integer(None) => Err(ArgsError::IntegerTooLarge),
                                    _ => Err(ArgsError::ExpectedInteger),
                                }
                            }
                        },
                        _ => Err(ArgsError::ExpectedEquals),
                    }
                }
            },
            _ => Err(ArgsError::ExpectedIdent),
        }
    }
}

/// What the code generator reads of one parameter of a task.
#[derive(Debug)]
pub struct TaskParam {
    /// The last segment of the parameter's type, where the type is a path;
    /// `None` for a receiver and for a type of another shape.
    pub type_ident: Option<String>,
    /// The first argument in the angle brackets behind that segment, where
    /// it is a type that is a path.
    pub first_type_argument: Option<String>,
}

/// A parameter is a view of a component storage where its type is `View` or
/// `ViewMut`.
pub open spec fn is_view(type_ident: Seq<char>) -> bool {
    type_ident == seq!['V', 'i', 'e', 'w'] || type_ident == seq!['V', 'i', 'e', 'w', 'M', 'u', 't']
}

/// The component type that `param` borrows, if it is a view of one.
pub open spec fn component_type(param: TaskParam) -> Option<Seq<char>> {
    match (param.type_ident, param.first_type_argument) {
        (Some(type_ident), Some(argument)) => if is_view(type_ident@) {
            Some(argument@)
        } else {
            None
        },
        _ => None,
    }
}

/// The component types that the parameters borrow, in the order of the
/// parameters.
pub open spec fn component_types(params: Seq<TaskParam>) -> Seq<Seq<char>>
    decreases params.len(),
{
    if params.len() == 0 {
        Seq::empty()
    } else {
        match component_type(params.last()) {
            Some(argument) => component_types(params.drop_last()).push(argument),
            None => component_types(params.drop_last()),
        }
    }
}

/// The component types that a task works on: the type arguments of its
/// parameters that are views. These are the types to register before the
/// task runs.
pub fn extract_component_types(params: &Vec<TaskParam>) -> (types: Vec<String>)
    ensures
        types.deep_view() == component_types(params@),
{
    proof {
        reveal_strlit("View");
        reveal_strlit("ViewMut");
    }
    let view = "View".to_owned();
    let view_mut = "ViewMut".to_owned();
    assert(view@ =~= seq!['V', 'i', 'e', 'w']);
    assert(view_mut@ =~= seq!['V', 'i', 'e', 'w', 'M', 'u', 't']);
    let mut types: Vec<String> = Vec::new();
    let mut i: usize = 0;
    while i < params.len()
        invariant
            i <= params.len(),
            view@ == seq!['V', 'i', 'e', 'w'],
            view_mut@ == seq!['V', 'i', 'e', 'w', 'M', 'u', 't'],
            types.deep_view() == component_types(params@.take(i as int)),
        decreases params.len() - i,
    {
        assert(params@.take(i + 1).drop_last() =~= params@.take(i as int));
        let ghost before = types.deep_view();
        match (&params[i].type_ident, &params[i].first_type_argument) {
            (Some(type_ident), Some(argument)) => {
                if *type_ident == view || *type_ident == view_mut {
                    types.push(argument.clone());
                    assert(types.deep_view() =~= before.push(argument@));
                }
            },
            _ => {},
        }
        i += 1;
    }
    assert(params@.take(params.len() as int) =~= params@);
    types
}

} // verus!
