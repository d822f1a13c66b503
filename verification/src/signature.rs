//! What the declaration of a route reads of the signature of its handler.
//!
//! A handler takes its JSON body as an argument of type `Json<T>` and its
//! query as an argument of type `Query<T>`, and answers with a `Json<T>` or a
//! `Result<Json<T>, E>`. Only the last segment of a type's path is looked at,
//! and of its arguments only the first.

use vstd::prelude::*;
use vstd::string::StringExecFns;

verus! {

/// A type, as far as a route declaration looks at it.
#[derive(Debug, PartialEq, Eq)]
pub enum TypeShape {
    /// A type written as a path, such as `axum::Json<User>`, with the last
    /// segment of the path. A path without segments has none.
    Path { last_segment: Option<PathSegment> },
    /// A tuple type with this number of elements; `()` has none.
    Tuple { elements: usize },
    /// Any other type.
    Other,
}

/// A segment of a path, such as `Json<User>`.
#[derive(Debug, PartialEq, Eq)]
pub struct PathSegment {
    pub ident: String,
    /// The first of the arguments in angle brackets, where the segment has
    /// such arguments and the first of them is a type.
    pub first_type_argument: Option<Box<TypeShape>>,
}

/// An argument of a function.
#[derive(Debug, PartialEq, Eq)]
pub enum Argument {
    /// `self` in one of its forms.
    Receiver,
    /// An argument with its type.
    Typed(TypeShape),
}

/// The arguments of a function and the type that it returns, where it names
/// one.
#[derive(Debug, PartialEq, Eq)]
pub struct Signature {
    pub inputs: Vec<Argument>,
    pub output: Option<TypeShape>,
}

/// How a handler wraps what it answers with.
#[derive(Clone, Copy, Debug, PartialEq, Eq, Structural)]
pub enum ResponseWrapper {
    /// The handler returns `Json<T>`.
    Json,
    /// The handler returns `Result<Json<T>, E>`.
    ResultOfJson,
}

/// `ty` is a path without segments.
pub open spec fn is_empty_path(ty: TypeShape) -> bool {
    ty matches TypeShape::Path { last_segment: None }
}

/// The type that `ty` wraps, where `ty` is `wrapper<T, ..>`: a path whose
/// last segment is named `wrapper` and has a type as its first argument.
pub open spec fn wrapped(ty: TypeShape, wrapper: Seq<char>) -> Option<TypeShape> {
    match ty {
        TypeShape::Path { last_segment: Some(segment) } => if segment.ident@ == wrapper {
            match segment.first_type_argument {
                Some(inner) => Some(*inner),
                None => None,
            }
        } else {
            None
        },
        _ => None,
    }
}

/// `ty` is the unit type `()`.
pub open spec fn is_unit(ty: TypeShape) -> bool {
    ty matches TypeShape::Tuple { elements: 0 }
}

/// The search for an argument of type `wrapper<T>` ends at `argument`: its
/// type is such a type, or a path without segments, at which the search gives
/// up.
pub open spec fn ends_search(argument: Argument, wrapper: Seq<char>) -> bool {
    match argument {
        Argument::Typed(ty) => is_empty_path(ty) || wrapped(ty, wrapper) is Some,
        Argument::Receiver => false,
    }
}

/// The place of the first argument of type `wrapper<T>`. There is none where
/// no argument has such a type, or where an argument before it has a path
/// without segments as its type.
pub open spec fn wrapped_argument(inputs: Seq<Argument>, wrapper: Seq<char>) -> Option<usize> {
    if exists|i: int| 0 <= i < inputs.len() && ends_search(#[trigger] inputs[i], wrapper) {
        let first = choose|i: int|
            0 <= i < inputs.len() && ends_search(#[trigger] inputs[i], wrapper) && forall|j: int|
                0 <= j < i ==> !ends_search(#[trigger] inputs[j], wrapper);
        match inputs[first] {
            Argument::Typed(ty) => if wrapped(ty, wrapper) is Some {
                Some(first as usize)
            } else {
                None
            },
            Argument::Receiver => None,
        }
    } else {
        None
    }
}

/// How the type `output` wraps what a handler answers with. A handler that
/// answers with the unit type answers with nothing.
pub open spec fn response_wrapper(output: TypeShape) -> Option<ResponseWrapper> {
    match wrapped(output, "Json"@) {
        Some(inner) => if is_unit(inner) {
            None
        } else {
            Some(ResponseWrapper::Json)
        },
        None => match wrapped(output, "Result"@) {
            Some(ok) => match wrapped(ok, "Json"@) {
                Some(inner) => if is_unit(inner) {
                    None
                } else {
                    Some(ResponseWrapper::ResultOfJson)
                },
                None => None,
            },
            None => None,
        },
    }
}

/// Tells whether a type is the unit type `()`.
pub fn is_unit_type(ty: &TypeShape) -> (unit: bool)
    ensures
        unit == is_unit(*ty),
{
    match ty {
        TypeShape::Tuple { elements } => *elements == 0,
        _ => false,
    }
}

/// The type that `ty` wraps, where `ty` is `wrapper<T, ..>`.
pub fn wrapped_type<'a>(ty: &'a TypeShape, wrapper: &str) -> (inner: Option<&'a TypeShape>)
    ensures
        match inner {
            Some(inner) => wrapped(*ty, wrapper@) == Some(*inner),
            None => wrapped(*ty, wrapper@) is None,
        },
{
    match ty {
        TypeShape::Path { last_segment: Some(segment) } => {
            if segment.ident == String::from_str(wrapper) {
                match &segment.first_type_argument {
                    Some(inner) => Some(&**inner),
                    None => None,
                }
            } else {
                None
            }
        },
        _ => None,
    }
}

/// The place of the first argument of type `wrapper<T>`.
pub fn extract_argument(signature: &Signature, wrapper: &str) -> (place: Option<usize>)
    ensures
        place == wrapped_argument(signature.inputs@, wrapper@),
        match place {
            Some(i) => i < signature.inputs.len() && match signature.inputs[i as int] {
                Argument::Typed(ty) => wrapped(ty, wrapper@) is Some,
                Argument::Receiver => false,
            },
            None => true,
        },
{
    let ghost inputs = signature.inputs@;
    let mut i: usize = 0;
    while i < signature.inputs.len()
        invariant
            i <= signature.inputs.len(),
            inputs == signature.inputs@,
            forall|j: int| 0 <= j < i ==> !ends_search(#[trigger] inputs[j], wrapper@),
        decreases signature.inputs.len() - i,
    {
        match &signature.inputs[i] {
            Argument::Typed(ty) => {
                match ty {
                    TypeShape::Path { last_segment: None } => {
                        proof {
                            lemma_search_ends_at(inputs, wrapper@, i as int);
                        }
                        return None;
                    },
                    _ => {},
                }
                if wrapped_type(ty, wrapper).is_some() {
                    proof {
                        lemma_search_ends_at(inputs, wrapper@, i as int);
                    }
                    return Some(i);
                }
            },
            Argument::Receiver => {},
        }
        i += 1;
    }
    None
}

/// The first argument at which the search ends decides the search.
proof fn lemma_search_ends_at(inputs: Seq<Argument>, wrapper: Seq<char>, first: int)
    requires
        0 <= first < inputs.len(),
        ends_search(inputs[first], wrapper),
        forall|j: int| 0 <= j < first ==> !ends_search(#[trigger] inputs[j], wrapper),
    ensures
        wrapped_argument(inputs, wrapper) == match inputs[first] {
            Argument::Typed(ty) => if wrapped(ty, wrapper) is Some {
                Some(first as usize)
            } else {
                None
            },
            Argument::Receiver => None,
        },
{
    let chosen = choose|i: int|
        0 <= i < inputs.len() && ends_search(#[trigger] inputs[i], wrapper) && forall|j: int|
            0 <= j < i ==> !ends_search(#[trigger] inputs[j], wrapper);
    if chosen < first {
        assert(!ends_search(inputs[chosen], wrapper));
    } else if first < chosen {
        assert(!ends_search(inputs[first], wrapper));
    }
}

/// The place of the argument that carries the JSON body of the handler: the
/// first argument of type `Json<T>`.
pub fn extract_request_type(signature: &Signature) -> (place: Option<usize>)
    ensures
        place == wrapped_argument(signature.inputs@, "Json"@),
{
    extract_argument(signature, "Json")
}

/// The place of the argument that carries the query of the handler: the
/// first argument of type `Query<T>`.
pub fn extract_query_type(signature: &Signature) -> (place: Option<usize>)
    ensures
        place == wrapped_argument(signature.inputs@, "Query"@),
{
    extract_argument(signature, "Query")
}

/// How the handler wraps what it answers with: as `Json<T>` or as
/// `Result<Json<T>, E>`. A handler that names no return type, or another one,
/// or answers with the unit type, describes no answer.
pub fn extract_response_type(signature: &Signature) -> (wrapper: Option<ResponseWrapper>)
    ensures
        wrapper == match signature.output {
            Some(output) => response_wrapper(output),
            None => None,
        },
{
    match &signature.output {
        Some(output) => {
            match wrapped_type(output, "Json") {
                Some(inner) => {
                    if is_unit_type(inner) {
                        None
                    } else {
                        Some(ResponseWrapper::Json)
                    }
                },
                None => match wrapped_type(output, "Result") {
                    Some(ok) => match wrapped_type(ok, "Json") {
                        Some(inner) => {
                            if is_unit_type(inner) {
                                None
                            } else {
                                Some(ResponseWrapper::ResultOfJson)
                            }
                        },
                        None => None,
                    },
                    None => None,
                },
            }
        },
        None => None,
    }
}

} // verus!
